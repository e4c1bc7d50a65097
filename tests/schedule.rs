use radio_schedule::dom::{Document, DomNode, Selector, Simple};
use radio_schedule::item::{Item, ScheduleError};
use radio_schedule::rns::{place_show, read_show, schedule_rns, scrape_listing, wall_clock_millis, Show};
use radio_schedule::state::{get, map_item, map_schedule, state_script_text, JsValue};
use radio_schedule::timing::{parse_time_range, tab_day_offset, weekday_from_monday};

// ---------- building documents ----------

enum T {
    E(&'static str, &'static [&'static str], Vec<T>),
    X(&'static str),
}

fn flatten(t: &T, parent: Option<usize>, out: &mut Vec<DomNode>) {
    let me = out.len();
    match t {
        T::X(s) => out.push(DomNode {
            name: String::new(),
            is_text: true,
            text: s.to_string(),
            classes: vec![],
            parent,
            end: me + 1,
        }),
        T::E(name, classes, children) => {
            out.push(DomNode {
                name: name.to_string(),
                is_text: false,
                text: String::new(),
                classes: classes.iter().map(|c| c.to_string()).collect(),
                parent,
                end: 0,
            });
            for c in children {
                flatten(c, Some(me), out);
            }
            out[me].end = out.len();
        }
    }
}

fn doc(t: T) -> Document {
    let mut nodes = vec![];
    flatten(&t, None, &mut nodes);
    Document { nodes }
}

fn e(name: &'static str, classes: &'static [&'static str], children: Vec<T>) -> T {
    T::E(name, classes, children)
}

fn x(s: &'static str) -> T {
    T::X(s)
}

const HEAD: &[&str] = &["proradio-post__headercont--ex"];
const CAP: &[&str] = &["proradio-post__card__cap"];

fn primary_card(name: &'static str, desc: Option<&'static str>, hosts: Vec<&'static str>, times: &'static str) -> T {
    let mut head = vec![e("h4", &[], vec![x(name)])];
    if let Some(d) = desc {
        head.push(e("p", &[], vec![x(d)]));
    }
    for h in hosts {
        head.push(e("h6", &[], vec![x(h)]));
    }
    e(
        "div",
        &["proradio-post__card--shows", "card"],
        vec![
            e("div", HEAD, head),
            e("div", CAP, vec![e("span", &["proradio-itemmetas"], vec![x(times)])]),
        ],
    )
}

fn fallback_card(name: &'static str, times: &'static str) -> T {
    e(
        "div",
        &["proradio-post__card--shows"],
        vec![e(
            "div",
            CAP,
            vec![
                e("a", &["proradio-post__title"], vec![x("  "), x(name), x("\n")]),
                e("span", &["proradio-itemmetas"], vec![x(times)]),
            ],
        )],
    )
}

fn tab(cards: Vec<T>) -> T {
    e("div", &["proradio-tabs__content"], cards)
}

fn page(tabs: Vec<T>) -> Document {
    doc(e("html", &[], vec![e("body", &[], tabs)]))
}

// 2024-01-03, a Wednesday, counted in days from 1970-01-01.
const WEDNESDAY: i32 = 19725;

// ---------- embedded state ----------

fn s(v: &str) -> JsValue {
    JsValue::Str(v.to_string())
}

fn obj(entries: Vec<(&str, JsValue)>) -> JsValue {
    JsValue::Object(entries.into_iter().map(|(k, v)| (k.to_string(), v)).collect())
}

fn host(first: &str, last: &str) -> JsValue {
    obj(vec![("firstname", s(first)), ("lastname", s(last))])
}

fn raw_item(start: i64, end: i64, hosts: Vec<JsValue>, name: &str, desc: &str) -> JsValue {
    obj(vec![
        ("start_at", JsValue::Number(start)),
        ("end_at", JsValue::Number(end)),
        ("hosts", JsValue::List(hosts)),
        ("program", obj(vec![("name", s(name)), ("description", s(desc))])),
    ])
}

fn day(items: Vec<JsValue>) -> JsValue {
    obj(vec![("date", s("2024-01-03")), ("items", JsValue::List(items))])
}

#[test]
fn maps_every_item_of_every_day_verbatim() {
    let root = JsValue::List(vec![
        day(vec![
            raw_item(1000, 2000, vec![host("Anna", "Nowak"), host("Jan", "Kowalski")], "Poranek", "Morning show"),
            raw_item(2000, 3000, vec![], "Cisza", ""),
        ]),
        day(vec![]),
        day(vec![raw_item(5000, 9000, vec![host("Ola", "Zet")], "Noc", "Late")]),
    ]);
    let items = map_schedule(&root).unwrap();
    assert_eq!(items.len(), 3);
    assert_eq!(items[0].start_at, 1000);
    assert_eq!(items[0].end_at, 2000);
    assert_eq!(items[0].name, "Poranek");
    assert_eq!(items[0].description, "Morning show");
    assert_eq!(items[0].hosts, vec!["Anna Nowak".to_string(), "Jan Kowalski".to_string()]);
    assert_eq!(items[1].name, "Cisza");
    assert!(items[1].hosts.is_empty());
    assert_eq!(items[2].start_at, 5000);
    assert_eq!(items[2].end_at, 9000);
    assert_eq!(items[2].hosts, vec!["Ola Zet".to_string()]);
}

#[test]
fn empty_day_list_maps_to_no_items() {
    assert_eq!(map_schedule(&JsValue::List(vec![])).unwrap().len(), 0);
}

#[test]
fn item_missing_a_required_key_fails_everything() {
    for missing in ["start_at", "end_at", "hosts", "program"] {
        let good = raw_item(1, 2, vec![], "a", "b");
        let bad = match good {
            JsValue::Object(es) => JsValue::Object(es.into_iter().filter(|(k, _)| k != missing).collect()),
            _ => unreachable!(),
        };
        let root = JsValue::List(vec![day(vec![raw_item(1, 2, vec![], "ok", "")]), day(vec![bad])]);
        assert!(matches!(map_schedule(&root), Err(ScheduleError::JsValueMismatch)));
    }
}

#[test]
fn field_of_wrong_kind_fails_everything() {
    let bad = obj(vec![
        ("start_at", s("1000")),
        ("end_at", JsValue::Number(2)),
        ("hosts", JsValue::List(vec![])),
        ("program", obj(vec![("name", s("n")), ("description", s("d"))])),
    ]);
    let root = JsValue::List(vec![day(vec![raw_item(1, 2, vec![], "ok", ""), bad])]);
    assert!(matches!(map_schedule(&root), Err(ScheduleError::JsValueMismatch)));
}

#[test]
fn host_without_last_name_fails_everything() {
    let bad_host = obj(vec![("firstname", s("Anna"))]);
    let root = JsValue::List(vec![day(vec![raw_item(1, 2, vec![bad_host], "x", "y")])]);
    assert!(matches!(map_schedule(&root), Err(ScheduleError::JsValueMismatch)));
    let not_a_map = JsValue::Null;
    assert!(map_item(&raw_item(1, 2, vec![not_a_map], "x", "y")).is_none());
}

#[test]
fn program_without_description_fails_everything() {
    let bad = obj(vec![
        ("start_at", JsValue::Number(1)),
        ("end_at", JsValue::Number(2)),
        ("hosts", JsValue::List(vec![])),
        ("program", obj(vec![("name", s("n"))])),
    ]);
    assert!(matches!(map_schedule(&JsValue::List(vec![day(vec![bad])])), Err(ScheduleError::JsValueMismatch)));
}

#[test]
fn malformed_days_fail() {
    assert!(matches!(map_schedule(&JsValue::Null), Err(ScheduleError::JsValueMismatch)));
    assert!(matches!(map_schedule(&obj(vec![])), Err(ScheduleError::JsValueMismatch)));
    let no_items = obj(vec![("date", s("x"))]);
    assert!(matches!(map_schedule(&JsValue::List(vec![no_items])), Err(ScheduleError::JsValueMismatch)));
    let items_not_list = obj(vec![("items", JsValue::Bool(true))]);
    assert!(matches!(map_schedule(&JsValue::List(vec![items_not_list])), Err(ScheduleError::JsValueMismatch)));
    assert!(matches!(map_schedule(&JsValue::List(vec![JsValue::Number(3)])), Err(ScheduleError::JsValueMismatch)));
}

#[test]
fn lookup_takes_the_first_occurrence() {
    let entries = vec![
        ("a".to_string(), JsValue::Number(1)),
        ("b".to_string(), JsValue::Number(2)),
        ("a".to_string(), JsValue::Number(3)),
    ];
    assert!(matches!(get(&entries, "a"), Some(JsValue::Number(1))));
    assert!(matches!(get(&entries, "b"), Some(JsValue::Number(2))));
    assert!(get(&entries, "c").is_none());
}

#[test]
fn finds_the_state_script_under_body() {
    let d = doc(e(
        "html",
        &[],
        vec![
            e("head", &[], vec![e("script", &[], vec![x("ignored")])]),
            e("body", &[], vec![e("div", &[], vec![e("script", &[], vec![x("nested")])]), e("script", &[], vec![x("window.a = 1;")]), e("script", &[], vec![x("second")])]),
        ],
    ));
    assert_eq!(state_script_text(&d).unwrap(), "window.a = 1;");
    let none = doc(e("html", &[], vec![e("body", &[], vec![e("div", &[], vec![e("script", &[], vec![])])])]));
    assert!(matches!(state_script_text(&none), Err(ScheduleError::ScriptMissing)));
}

// ---------- time ranges ----------

#[test]
fn forward_range_lasts_the_clock_difference() {
    assert_eq!(parse_time_range("10:00 - 12:30"), Some((36000, 9000)));
    assert_eq!(parse_time_range("06:00 - 06:00"), Some((21600, 0)));
}

#[test]
fn backward_range_lasts_the_absolute_difference() {
    assert_eq!(parse_time_range("23:00 - 01:00"), Some((82800, 79200)));
}

#[test]
fn range_text_is_trimmed() {
    assert_eq!(parse_time_range("\n  08:15 - 09:00  "), Some((29700, 2700)));
    assert_eq!(parse_time_range("08:15  -  09:00"), Some((29700, 2700)));
}

#[test]
fn single_time_ends_at_midnight_start() {
    assert_eq!(parse_time_range("12:00"), Some((43200, 43200)));
}

#[test]
fn only_the_first_two_pieces_count() {
    assert_eq!(parse_time_range("10:00 - 11:00 - 23:00"), Some((36000, 3600)));
}

#[test]
fn malformed_range_does_not_parse() {
    assert_eq!(parse_time_range("soon - later"), None);
    assert_eq!(parse_time_range("10:00 - 25:00"), None);
    assert_eq!(parse_time_range("10:00 to 11:00"), None);
}

// ---------- calendar ----------

#[test]
fn weekday_counts_from_monday() {
    assert_eq!(weekday_from_monday(0), 3);
    assert_eq!(weekday_from_monday(WEDNESDAY), 2);
    assert_eq!(weekday_from_monday(19723), 0);
    assert_eq!(weekday_from_monday(-1), 2);
    assert_eq!(weekday_from_monday(i32::MIN), ((i32::MIN as i64 + 3).rem_euclid(7)) as u32);
}

#[test]
fn tabs_before_today_roll_into_next_week() {
    let dow = weekday_from_monday(WEDNESDAY);
    assert_eq!(tab_day_offset(0, dow), 5);
    assert_eq!(tab_day_offset(1, dow), 6);
    assert_eq!(tab_day_offset(2, dow), 0);
    assert_eq!(tab_day_offset(3, dow), 1);
    assert_eq!(tab_day_offset(6, dow), 4);
}

#[test]
fn wall_clock_millis_is_exact() {
    assert_eq!(wall_clock_millis(0, 0, 0), Some(0));
    assert_eq!(wall_clock_millis(WEDNESDAY, 5, 3600), Some((19730i64 * 86400 + 3600) * 1000));
    assert_eq!(wall_clock_millis(-1, 0, 60), Some((-86400 + 60) * 1000));
    assert_eq!(wall_clock_millis(i32::MAX, usize::MAX, 0), None);
}

#[test]
fn placed_show_ends_its_length_later() {
    let sh = Show {
        day_offset: 0,
        start_secs: 0,
        length_secs: 5400,
        name: "N".to_string(),
        description: "D".to_string(),
        hosts: vec!["H".to_string()],
    };
    let it: Item = place_show(&sh, 1_000).unwrap();
    assert_eq!(it.start_at, 1_000);
    assert_eq!(it.end_at, 1_000 + 5_400_000);
    assert_eq!(it.name, "N");
    assert_eq!(it.hosts, vec!["H".to_string()]);
    assert!(place_show(&sh, i64::MAX - 10).is_none());
}

// ---------- the tabbed listing ----------

fn two_day_page() -> Document {
    page(vec![
        tab(vec![
            primary_card("Poranek", Some(" Wake up "), vec![" Anna ", "Jan"], " 06:00 - 09:00 "),
            fallback_card("Nocne", "23:00 - 01:00"),
        ]),
        tab(vec![
            fallback_card("Popołudnie", "14:00 - 15:30"),
            primary_card("Wieczór", None, vec![], "20:00 - 22:00"),
        ]),
    ])
}

#[test]
fn two_day_listing_yields_four_dated_shows() {
    let shows = scrape_listing(&two_day_page(), WEDNESDAY).unwrap();
    assert_eq!(shows.len(), 4);
    assert_eq!(shows[0].day_offset, 5);
    assert_eq!(shows[1].day_offset, 5);
    assert_eq!(shows[2].day_offset, 6);
    assert_eq!(shows[3].day_offset, 6);
    assert_eq!(shows[0].name, "Poranek");
    assert_eq!(shows[1].name, "Nocne");
    assert_eq!(shows[2].name, "Popołudnie");
    assert_eq!(shows[3].name, "Wieczór");
    assert_eq!((shows[0].start_secs, shows[0].length_secs), (21600, 10800));
    assert_eq!((shows[1].start_secs, shows[1].length_secs), (82800, 79200));
    assert_eq!((shows[2].start_secs, shows[2].length_secs), (50400, 5400));
    assert_eq!((shows[3].start_secs, shows[3].length_secs), (72000, 7200));
    assert_eq!(shows[0].description, "Wake up");
    assert_eq!(shows[0].hosts, vec!["Anna".to_string(), "Jan".to_string()]);
    assert!(shows[1].hosts.is_empty());
}

#[test]
fn two_day_listing_items_span_their_lengths() {
    let items = schedule_rns(&two_day_page(), WEDNESDAY).unwrap();
    assert_eq!(items.len(), 4);
    assert_eq!(items[0].end_at - items[0].start_at, 10_800_000);
    assert_eq!(items[1].end_at - items[1].start_at, 79_200_000);
    assert_eq!(items[2].end_at - items[2].start_at, 5_400_000);
    assert_eq!(items[3].end_at - items[3].start_at, 7_200_000);
    assert_eq!(items[2].start_at - items[0].start_at, (86400 + 50400 - 21600) * 1000);
    assert_eq!(items[3].name, "Wieczór");
}

#[test]
fn missing_description_reads_as_empty() {
    let shows = scrape_listing(&two_day_page(), WEDNESDAY).unwrap();
    assert_eq!(shows[3].description, "");
    assert_eq!(shows[1].description, "");
}

#[test]
fn card_without_anything_reads_as_empty_at_midnight() {
    let d = page(vec![tab(vec![e("div", &["proradio-post__card--shows"], vec![])])]);
    let shows = scrape_listing(&d, 19723).unwrap();
    assert_eq!(shows.len(), 1);
    assert_eq!(shows[0].name, "");
    assert_eq!(shows[0].description, "");
    assert!(shows[0].hosts.is_empty());
    assert_eq!((shows[0].day_offset, shows[0].start_secs, shows[0].length_secs), (0, 0, 0));
    let sh = read_show(&d, 3, 2).unwrap();
    assert_eq!(sh.day_offset, 2);
}

#[test]
fn unparsable_time_fails_the_listing() {
    let d = page(vec![tab(vec![primary_card("A", None, vec![], "06:00 - 09:00")]), tab(vec![primary_card("B", None, vec![], "noon - 13:00")])]);
    assert!(matches!(scrape_listing(&d, WEDNESDAY), Err(ScheduleError::ParseTimeError)));
    assert!(matches!(schedule_rns(&d, WEDNESDAY), Err(ScheduleError::ParseTimeError)));
}

#[test]
fn selectors_follow_parent_and_class() {
    let d = two_day_page();
    let sel = Selector { parent: Some(Simple::Class("proradio-post__headercont--ex")), node: Simple::Tag("h6") };
    let hosts = d.select_in(&sel, 0, d.nodes.len());
    assert_eq!(hosts.len(), 2);
    assert_eq!(d.text_of(hosts[0]), " Anna ");
    let tabs = d.select_in(&Selector { parent: None, node: Simple::Class("proradio-tabs__content") }, 0, d.nodes.len());
    assert_eq!(tabs.len(), 2);
    assert!(d.is_selected(&Selector { parent: Some(Simple::Tag("html")), node: Simple::Tag("body") }, 1));
}

#[test]
fn short_clock_fields_are_accepted() {
    assert_eq!(parse_time_range("7:05 - 9:5"), Some((25500, 7200)));
    assert_eq!(parse_time_range("007:00 - 08:00"), None);
    assert_eq!(parse_time_range("07 :00 - 08:00"), None);
}

#[test]
fn empty_listing_gives_no_items() {
    let items = schedule_rns(&page(vec![]), WEDNESDAY).unwrap();
    assert!(items.is_empty());
    let items = schedule_rns(&page(vec![tab(vec![]), tab(vec![])]), WEDNESDAY).unwrap();
    assert!(items.is_empty());
}
