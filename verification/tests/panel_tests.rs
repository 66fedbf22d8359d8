use calendar_core::panel::{
    date_and_time_below, first_locale, horizontal_text, system_locale, vertical_items, words_below,
    Cycle, PanelItem, Precision, FALLBACK_LOCALE, LOCALE_VARIABLES,
};
use calendar_core::time::{Date, Zone, Zoned};
use calendar_core::window::{TimeAppletConfig, Window};

fn settings(date: bool, weekday: bool, seconds: bool) -> TimeAppletConfig {
    TimeAppletConfig {
        first_day_of_week: 6,
        show_seconds: seconds,
        military_time: true,
        show_date_in_top_panel: date,
        show_weekday: weekday,
        format_strftime: String::new(),
    }
}

fn now() -> Zoned {
    Date::new(2024, 1, 15).unwrap().at(13, 5, 9, 0).to_zoned(Zone::Utc).unwrap()
}

fn shown(items: &[PanelItem]) -> Vec<&str> {
    items
        .iter()
        .map(|i| match i {
            PanelItem::Text(s) => s.as_str(),
            PanelItem::Rule => "--",
        })
        .collect()
}

fn some(s: &str) -> Option<String> {
    Some(s.to_string())
}

#[test]
fn locale_of_the_environment() {
    assert_eq!(LOCALE_VARIABLES, ["LC_TIME", "LC_ALL", "LANG"]);
    assert_eq!(system_locale(&vec![None, None, some("de_DE.UTF-8")]), "de-DE");
    assert_eq!(system_locale(&vec![some("fr_CA"), None, some("de_DE.UTF-8")]), "fr-CA");
    assert_eq!(system_locale(&vec![some("EN_us"), None, None]), "en-US");
    // What stands behind the language is no part of a locale
    assert_eq!(system_locale(&vec![some("pt_!!.UTF-8"), None, some("de_DE")]), "pt");
    // A variable that names none is passed over
    assert_eq!(system_locale(&vec![some("C"), None, some("nl_NL")]), "nl-NL");
    assert_eq!(system_locale(&vec![None, None, None]), FALLBACK_LOCALE);
    assert_eq!(first_locale(&vec![None, some("it"), some("de")]), "it");
    assert_eq!(first_locale(&vec![]), "en-US");
}

#[test]
fn clock_in_one_line() {
    let z = now();
    let line = |c: &TimeAppletConfig| horizontal_text(c, "en-US", &z, None).unwrap();
    assert_eq!(line(&settings(false, true, true)), "13:05:09");
    assert_eq!(line(&settings(false, false, false)), "13:05");
    assert_eq!(line(&settings(true, false, false)), "Jan 15, 13:05");
    assert_eq!(line(&settings(true, true, true)), "Mon, Jan 15, 13:05:09");
    let mut c = settings(false, false, false);
    assert_eq!(c.cycle(), Cycle::H23);
    assert_eq!(c.precision(), Precision::Minute);
    c.military_time = false;
    assert_eq!(c.cycle(), Cycle::H12);
    let text = line(&c);
    assert!(text.starts_with("1:05"), "{text}");
    assert!(text.ends_with("PM"), "{text}");
    assert_eq!(horizontal_text(&c, "en-US", &z, some("own")).as_deref(), Some("own"));
    assert_eq!(horizontal_text(&c, "!", &z, None), None);
}

#[test]
fn clock_in_a_column() {
    let z = now();
    let column = |c: &TimeAppletConfig| vertical_items(c, "en-US", &z, &None).unwrap();
    assert_eq!(
        shown(&column(&settings(true, false, true))),
        vec!["Jan", "15", "--", "13", "05", "09"]
    );
    assert_eq!(shown(&column(&settings(false, false, false))), vec!["13", "05"]);
    let mut c = settings(false, false, false);
    c.military_time = false;
    assert_eq!(shown(&column(&c)), vec!["1", "05", "PM"]);
    let own = vertical_items(&c, "en-US", &z, &some(" 13:05  Mon ")).unwrap();
    assert_eq!(shown(&own), vec!["13:05", "Mon"]);
    assert!(vertical_items(&c, "!", &z, &None).is_none());
    assert_eq!(shown(&words_below("a b")), vec!["a", "b"]);
    assert_eq!(shown(&date_and_time_below(&some("x y"), "1:2 z")), vec!["x", "y", "--", "1", "2", "z"]);
    assert_eq!(shown(&date_and_time_below(&None, "")), Vec::<&str>::new());
}

#[test]
fn clock_of_the_applet() {
    let mut w = Window::start(settings(true, false, false), now(), Vec::new(), Vec::new());
    assert_eq!(w.horizontal_layout("en-US").as_deref(), Some("Jan 15, 13:05"));
    assert_eq!(shown(&w.vertical_layout("en-US").unwrap()), vec!["Jan", "15", "--", "13", "05"]);
    w.config.format_strftime = "%H h %M".to_string();
    assert_eq!(w.horizontal_layout("en-US").as_deref(), Some("13 h 05"));
    assert_eq!(shown(&w.vertical_layout("en-US").unwrap()), vec!["13", "h", "05"]);
    // A format that is not valid is passed over
    w.config.format_strftime = "%".to_string();
    assert_eq!(w.horizontal_layout("en-US").as_deref(), Some("Jan 15, 13:05"));
}

#[test]
fn heads_of_the_calendar() {
    let w = Window::start(settings(true, false, false), now(), Vec::new(), Vec::new());
    let (date, weekday) = w.date_heads("en-US");
    assert_eq!(date.as_deref(), Some("January 15, 2024"));
    assert_eq!(weekday.as_deref(), Some("Monday"));
    let (date, weekday) = w.date_heads("de");
    assert_eq!(date.as_deref(), Some("15. Januar 2024"));
    assert_eq!(weekday.as_deref(), Some("Montag"));
    let heads: Vec<String> = w.weekday_heads("en-US").into_iter().map(|h| h.unwrap()).collect();
    assert_eq!(heads, vec!["Sun", "Mon", "Tue", "Wed", "Thu", "Fri", "Sat"]);
}
