//! A calendar applet core: iCalendar parsing and expansion, CalDAV replies,
//! synchronisation, caching and the applet's own state, with proved contracts.

pub mod addresses;
pub mod agenda;
pub mod auth;
pub mod cache;
pub mod caldav;
pub mod clock;
pub mod clock_face;
pub mod component;
pub mod config;
pub mod crypto;
pub mod datetime;
pub mod discovery;
pub mod documents;
pub mod editing;
pub mod escape;
pub mod event;
pub mod exchange;
pub mod expand;
pub mod forms;
pub mod ics;
pub mod messages;
pub mod occurrences;
pub mod panel;
pub mod periods;
pub mod picking;
pub mod properties;
pub mod reading;
pub mod recurrence;
pub mod replies;
pub mod rounds;
pub mod roundtrip;
pub mod rule;
pub mod secrets;
pub mod showing;
pub mod signing;
pub mod sorting;
pub mod sync;
pub mod sync_all;
pub mod syncing;
pub mod text;
pub mod time;
pub mod todo;
pub mod view;
pub mod window;
pub mod xml;
