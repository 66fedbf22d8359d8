# calendar_core

The core of a panel applet that shows the time and the user's calendars: reading and writing
iCalendar documents, recurrence rules, CalDAV replies and requests, synchronisation, the
encrypted cache, and the state of the applet. Every function of `src/` is verified with Verus
against its contract.

- `src/` is the library.
  - `time`, `datetime`, `clock`, `panel`: dates, moments and how they are shown.
  - `component`, `escape`, `event`, `todo`, `ics`, `roundtrip`: iCalendar documents; what is
    written is read back.
  - `rule`, `recurrence`, `expand`, `sorting`, `agenda`: recurring events and their order.
  - `xml`, `caldav`, `exchange`, `discovery`: replies of servers, and what is asked of them.
  - `config`, `auth`, `secrets`: sources and how they are signed in to.
  - `sync`, `sync_all`: what is fetched, step by step, and what becomes of the answers.
  - `crypto`, `cache`: what is kept on disk.
  - `forms`, `window`, `view`: the applet.
- `app/` is the applet itself: files, the keyring, HTTP, timers and widgets. It performs what
  the library decides.
- `tests/` runs the library.

Functions marked `external_body` call another crate. Their doc comments say what is believed
of it.
