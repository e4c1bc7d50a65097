//! The tabbed weekly listing: one tab per weekday, Monday first, each holding
//! show cards.
use vstd::prelude::*;
use crate::dom::{
    Document, DomNode, Selector, Simple, ints, lemma_select_range_selects, select_range,
    select_within, text_of,
};
use crate::item::{Item, ItemView, ScheduleError, views_of};
use crate::state::{
    all_some, concat_all, lemma_all_some_pointwise, lemma_all_some_prefix_none, lemma_concat_index,
};
use crate::timing::{
    abs_diff, hhmm_secs, is_clock_range, lemma_clock_range, local_to_utc_millis, parse_time_range,
    tab_day_offset, tab_offset, time_range, trim, trimmed, wall_millis, weekday_from_monday,
    weekday_of,
};

verus! {

/// A day tab.
pub open spec fn tab_sel() -> Selector<'static> {
    Selector { parent: None, node: Simple::Class("proradio-tabs__content") }
}

/// A show card.
pub open spec fn card_sel() -> Selector<'static> {
    Selector { parent: None, node: Simple::Class("proradio-post__card--shows") }
}

/// The primary place of a show's name.
pub open spec fn headline_sel() -> Selector<'static> {
    Selector { parent: Some(Simple::Class("proradio-post__headercont--ex")), node: Simple::Tag("h4") }
}

/// The fallback place of a show's name.
pub open spec fn title_sel() -> Selector<'static> {
    Selector { parent: Some(Simple::Class("proradio-post__card__cap")), node: Simple::Class("proradio-post__title") }
}

/// The place of a show's description.
pub open spec fn summary_sel() -> Selector<'static> {
    Selector { parent: Some(Simple::Class("proradio-post__headercont--ex")), node: Simple::Tag("p") }
}

/// The places of a show's hosts.
pub open spec fn host_sel() -> Selector<'static> {
    Selector { parent: Some(Simple::Class("proradio-post__headercont--ex")), node: Simple::Tag("h6") }
}

/// The place of a show's time range.
pub open spec fn times_sel() -> Selector<'static> {
    Selector { parent: Some(Simple::Class("proradio-post__card__cap")), node: Simple::Class("proradio-itemmetas") }
}

/// A show read off the listing, before it is placed in a time zone.
pub struct Show {
    /// Days after today.
    pub day_offset: usize,
    /// Start, in seconds after midnight.
    pub start_secs: u32,
    /// Length, in seconds.
    pub length_secs: u32,
    pub name: String,
    pub description: String,
    pub hosts: Vec<String>,
}

/// What a show is, mathematically.
pub struct ShowView {
    pub day_offset: int,
    pub start_secs: int,
    pub length_secs: int,
    pub name: Seq<char>,
    pub description: Seq<char>,
    pub hosts: Seq<Seq<char>>,
}

impl View for Show {
    type V = ShowView;

    open spec fn view(&self) -> ShowView {
        ShowView {
            day_offset: self.day_offset as int,
            start_secs: self.start_secs as int,
            length_secs: self.length_secs as int,
            name: self.name@,
            description: self.description@,
            hosts: views_of(self.hosts@),
        }
    }
}

/// The views of a sequence of shows.
pub open spec fn shows_view(v: Seq<Show>) -> Seq<ShowView> {
    v.map_values(|s: Show| s@)
}

/// The trimmed text of the first node listed, if any.
pub open spec fn first_text(nodes: Seq<DomNode>, found: Seq<int>) -> Option<Seq<char>> {
    if found.len() > 0 {
        Some(trimmed(text_of(nodes, found[0])))
    } else {
        None
    }
}

/// A show's name: from its primary place, else its fallback place, else
/// empty.
pub open spec fn show_name(nodes: Seq<DomNode>, s: int) -> Seq<char> {
    match first_text(nodes, select_within(nodes, headline_sel(), s)) {
        Some(t) => t,
        None => match first_text(nodes, select_within(nodes, title_sel(), s)) {
            Some(t) => t,
            None => Seq::empty(),
        },
    }
}

/// A show's description, or empty.
pub open spec fn show_description(nodes: Seq<DomNode>, s: int) -> Seq<char> {
    match first_text(nodes, select_within(nodes, summary_sel(), s)) {
        Some(t) => t,
        None => Seq::empty(),
    }
}

/// A show's hosts: the trimmed text of each host node, in document order.
pub open spec fn show_hosts(nodes: Seq<DomNode>, s: int) -> Seq<Seq<char>> {
    let found = select_within(nodes, host_sel(), s);
    Seq::new(found.len(), |k: int| trimmed(text_of(nodes, found[k])))
}

/// A show's raw time range text, or `00:00 - 00:00`.
pub open spec fn show_times(nodes: Seq<DomNode>, s: int) -> Seq<char> {
    let found = select_within(nodes, times_sel(), s);
    if found.len() > 0 {
        text_of(nodes, found[0])
    } else {
        "00:00 - 00:00"@
    }
}

/// The show of the card at `s`, `off` days after today, if its time range
/// parses.
pub open spec fn show_of(nodes: Seq<DomNode>, s: int, off: int) -> Option<ShowView> {
    match time_range(show_times(nodes, s)) {
        Some((a, len)) => Some(
            ShowView {
                day_offset: off,
                start_secs: a as int,
                length_secs: len as int,
                name: show_name(nodes, s),
                description: show_description(nodes, s),
                hosts: show_hosts(nodes, s),
            },
        ),
        None => None,
    }
}

/// A card without a description reads as one with an empty description: the
/// card still reads whenever its time range parses.
pub proof fn lemma_missing_description_is_empty(nodes: Seq<DomNode>, s: int, off: int)
    requires
        select_within(nodes, summary_sel(), s).len() == 0,
    ensures
        show_description(nodes, s) == Seq::<char>::empty(),
        show_of(nodes, s, off) is Some <==> time_range(show_times(nodes, s)) is Some,
        show_of(nodes, s, off) matches Some(v) ==> v.description == Seq::<char>::empty(),
{
}

fn first_text_of(doc: &Document, found: &Vec<usize>) -> (r: Option<String>)
    requires
        forall|k: int| 0 <= k < found@.len() ==> found@[k] < doc.nodes@.len(),
    ensures
        match r {
            Some(t) => first_text(doc.nodes@, ints(found@)) == Some(t@),
            None => first_text(doc.nodes@, ints(found@)) is None,
        },
{
    if found.len() > 0 {
        Some(trim(doc.text_of(found[0]).as_str()))
    } else {
        None
    }
}

fn selected(doc: &Document, sel: &Selector, s: usize) -> (r: Vec<usize>)
    requires
        s < doc.nodes@.len(),
    ensures
        ints(r@) == select_within(doc.nodes@, *sel, s as int),
        forall|k: int| 0 <= k < r@.len() ==> r@[k] < doc.nodes@.len(),
{
    let r = doc.select_within(sel, s);
    proof {
        lemma_select_range_selects(doc.nodes@, *sel, s + 1, crate::dom::subtree_end(doc.nodes@, s as int));
        assert forall|k: int| 0 <= k < r@.len() implies r@[k] < doc.nodes@.len() by {
            assert(ints(r@)[k] == r@[k] as int);
        }
    }
    r
}

/// Reads the show card at `s`, `off` days after today; `None` when its time
/// range does not parse. Missing names, descriptions and hosts read as empty.
pub fn read_show(doc: &Document, s: usize, off: usize) -> (r: Option<Show>)
    requires
        s < doc.nodes@.len(),
    ensures
        match r {
            Some(v) => show_of(doc.nodes@, s as int, off as int) == Some(v@),
            None => show_of(doc.nodes@, s as int, off as int) is None,
        },
{
    let headline = Selector { parent: Some(Simple::Class("proradio-post__headercont--ex")), node: Simple::Tag("h4") };
    let title = Selector { parent: Some(Simple::Class("proradio-post__card__cap")), node: Simple::Class("proradio-post__title") };
    let summary = Selector { parent: Some(Simple::Class("proradio-post__headercont--ex")), node: Simple::Tag("p") };
    let host = Selector { parent: Some(Simple::Class("proradio-post__headercont--ex")), node: Simple::Tag("h6") };
    let times = Selector { parent: Some(Simple::Class("proradio-post__card__cap")), node: Simple::Class("proradio-itemmetas") };
    let name = match first_text_of(doc, &selected(doc, &headline, s)) {
        Some(t) => t,
        None => match first_text_of(doc, &selected(doc, &title, s)) {
            Some(t) => t,
            None => String::new(),
        },
    };
    let description = match first_text_of(doc, &selected(doc, &summary, s)) {
        Some(t) => t,
        None => String::new(),
    };
    let found = selected(doc, &host, s);
    let mut hosts: Vec<String> = Vec::new();
    let mut k: usize = 0;
    while k < found.len()
        invariant
            k <= found@.len(),
            ints(found@) == select_within(doc.nodes@, host_sel(), s as int),
            forall|m: int| 0 <= m < found@.len() ==> found@[m] < doc.nodes@.len(),
            views_of(hosts@) == Seq::new(k as nat, |m: int| trimmed(text_of(doc.nodes@, found@[m] as int))),
        decreases found.len() - k,
    {
        let t = trim(doc.text_of(found[k]).as_str());
        let ghost before = hosts@;
        hosts.push(t);
        assert(views_of(hosts@) =~= views_of(before).push(t@));
        assert(views_of(hosts@) =~= Seq::new((k + 1) as nat, |m: int| trimmed(text_of(doc.nodes@, found@[m] as int))));
        k = k + 1;
    }
    proof {
        let found_i = select_within(doc.nodes@, host_sel(), s as int);
        assert forall|m: int| 0 <= m < found@.len() implies found_i[m] == found@[m] as int by {
            assert(ints(found@)[m] == found@[m] as int);
        }
        assert(views_of(hosts@) =~= show_hosts(doc.nodes@, s as int));
    }
    let found = selected(doc, &times, s);
    let raw = if found.len() > 0 {
        doc.text_of(found[0])
    } else {
        String::from_str("00:00 - 00:00")
    };
    match parse_time_range(raw.as_str()) {
        Some((a, len)) => Some(
            Show { day_offset: off, start_secs: a, length_secs: len, name, description, hosts },
        ),
        None => None,
    }
}

/// The positions of the day tabs, in document order.
pub open spec fn tabs_of(nodes: Seq<DomNode>) -> Seq<int> {
    select_range(nodes, tab_sel(), 0, nodes.len() as int)
}

/// [`show_of`] as a function value.
pub open spec fn show_fn(nodes: Seq<DomNode>, off: int) -> spec_fn(int) -> Option<ShowView> {
    |s: int| show_of(nodes, s, off)
}

/// The shows of the tab at `t`, `off` days after today, if every time range
/// parses.
pub open spec fn tab_shows(nodes: Seq<DomNode>, t: int, off: int) -> Option<Seq<ShowView>> {
    all_some(select_within(nodes, card_sel(), t), show_fn(nodes, off))
}

/// The shows of the `p`-th tab, when today is `dow` days after Monday.
pub open spec fn tab_fn(nodes: Seq<DomNode>, dow: int) -> spec_fn(int) -> Option<Seq<ShowView>> {
    |p: int| tab_shows(nodes, tabs_of(nodes)[p], tab_offset(p, dow))
}

/// All shows of the listing, tab by tab, when today is `dow` days after
/// Monday; `None` if a time range does not parse.
pub open spec fn listing(nodes: Seq<DomNode>, dow: int) -> Option<Seq<ShowView>> {
    match all_some(Seq::new(tabs_of(nodes).len(), |p: int| p), tab_fn(nodes, dow)) {
        Some(lists) => Some(concat_all(lists)),
        None => None,
    }
}

/// Reads every show card of every day tab. The `p`-th tab in document order
/// is the `p`-th weekday, Monday first, and is dated forward from `today`
/// (days since 1970-01-01). Fails only on a time range that does not parse.
pub fn scrape_listing(doc: &Document, today: i32) -> (r: Result<Vec<Show>, ScheduleError>)
    ensures
        match r {
            Ok(v) => listing(doc.nodes@, weekday_of(today as int)) == Some(shows_view(v@)),
            Err(e) => e == ScheduleError::ParseTimeError && listing(
                doc.nodes@,
                weekday_of(today as int),
            ) is None,
        },
{
    let dow = weekday_from_monday(today);
    let tab = Selector { parent: None, node: Simple::Class("proradio-tabs__content") };
    let card = Selector { parent: None, node: Simple::Class("proradio-post__card--shows") };
    let tabs = doc.select_in(&tab, 0, doc.nodes.len());
    proof {
        lemma_select_range_selects(doc.nodes@, tab_sel(), 0, doc.nodes@.len() as int);
    }
    let ghost nodes = doc.nodes@;
    assert forall|m: int| 0 <= m < tabs@.len() implies tabs@[m] < nodes.len() by {
        assert(ints(tabs@)[m] == tabs@[m] as int);
    }
    let ghost positions = Seq::new(tabs_of(nodes).len(), |p: int| p);
    let ghost tf = tab_fn(nodes, dow as int);
    let ghost mut lists: Seq<Seq<ShowView>> = Seq::empty();
    let mut out: Vec<Show> = Vec::new();
    let mut i: usize = 0;
    assert(positions.take(0) =~= Seq::<int>::empty());
    assert(shows_view(out@) =~= Seq::<ShowView>::empty());
    while i < tabs.len()
        invariant
            nodes == doc.nodes@,
            dow == weekday_of(today as int),
            dow < 7,
            ints(tabs@) == tabs_of(nodes),
            positions == Seq::new(tabs_of(nodes).len(), |p: int| p),
            tf == tab_fn(nodes, dow as int),
            card == card_sel(),
            forall|m: int| 0 <= m < tabs@.len() ==> tabs@[m] < nodes.len(),
            i <= tabs@.len(),
            all_some(positions.take(i as int), tf) == Some(lists),
            concat_all(lists) == shows_view(out@),
        decreases tabs.len() - i,
    {
        assert(ints(tabs@)[i as int] == tabs@[i as int] as int);
        let t = tabs[i];
        let off = tab_day_offset(i, dow);
        let cards = selected(doc, &card, t);
        let ghost sf = show_fn(nodes, off as int);
        let ghost mut cur: Seq<ShowView> = Seq::empty();
        assert(positions[i as int] == i as int);
        assert(tabs_of(nodes)[i as int] == t as int);
        let ghost base = shows_view(out@);
        let mut j: usize = 0;
        assert(ints(cards@).take(0) =~= Seq::<int>::empty());
        assert(base + cur =~= base);
        while j < cards.len()
            invariant
                nodes == doc.nodes@,
                i < tabs@.len(),
                t == tabs@[i as int],
                ints(cards@) == select_within(nodes, card_sel(), t as int),
                forall|m: int| 0 <= m < cards@.len() ==> cards@[m] < nodes.len(),
                sf == show_fn(nodes, off as int),
                positions == Seq::new(tabs_of(nodes).len(), |p: int| p),
                positions.len() == tabs@.len(),
                dow == weekday_of(today as int),
                tf == tab_fn(nodes, dow as int),
                tf(positions[i as int]) == all_some(ints(cards@), sf),
                all_some(positions.take(i as int), tf) == Some(lists),
                j <= cards@.len(),
                all_some(ints(cards@).take(j as int), sf) == Some(cur),
                shows_view(out@) == base + cur,
            decreases cards.len() - j,
        {
            assert(ints(cards@).take(j + 1).drop_last() =~= ints(cards@).take(j as int));
            assert(ints(cards@)[j as int] == cards@[j as int] as int);
            match read_show(doc, cards[j], off) {
                Some(sh) => {
                    let ghost before = out@;
                    out.push(sh);
                    proof {
                        assert(shows_view(out@) =~= shows_view(before).push(sh@));
                        cur = cur.push(sh@);
                        assert(shows_view(out@) =~= base + cur);
                    }
                },
                None => {
                    proof {
                        lemma_all_some_prefix_none(ints(cards@), sf, j + 1);
                        assert(positions.take(i + 1).drop_last() =~= positions.take(i as int));
                        assert(tf(positions[i as int]) is None);
                        lemma_all_some_prefix_none(positions, tf, i + 1);
                        assert(positions =~= Seq::new(tabs_of(doc.nodes@).len(), |p: int| p));
                    }
                    return Err(ScheduleError::ParseTimeError);
                },
            }
            j = j + 1;
        }
        proof {
            assert(ints(cards@).take(cards@.len() as int) =~= ints(cards@));
            assert(positions.take(i + 1).drop_last() =~= positions.take(i as int));
            assert(tf(positions[i as int]) == Some(cur));
            assert(lists.push(cur).drop_last() =~= lists);
            lists = lists.push(cur);
        }
        i = i + 1;
    }
    assert(positions.take(tabs@.len() as int) =~= positions);
    assert(positions =~= Seq::new(tabs_of(doc.nodes@).len(), |p: int| p));
    Ok(out)
}

/// Whether an integer fits in an `i64`.
pub open spec fn fits_i64(x: int) -> bool {
    i64::MIN <= x <= i64::MAX
}

/// The wall-clock milliseconds of `secs` after midnight, `off` days after
/// `today` (days since 1970-01-01); `None` if they do not fit in an `i64`.
pub fn wall_clock_millis(today: i32, off: usize, secs: u32) -> (r: Option<i64>)
    ensures
        r == (if fits_i64(wall_millis(today + off, secs as int)) {
            Some(wall_millis(today + off, secs as int) as i64)
        } else {
            None
        }),
{
    let day: i128 = today as i128 + off as i128;
    assert(-0x2_0000_0000_0000_0000 <= day <= 0x2_0000_0000_0000_0000);
    assert(-0x2_0000_0000_0000_0000 * 86400 <= day * 86400 <= 0x2_0000_0000_0000_0000 * 86400)
        by (nonlinear_arith)
        requires
            -0x2_0000_0000_0000_0000 <= day <= 0x2_0000_0000_0000_0000,
    ;
    let ms: i128 = (day * 86400 + secs as i128) * 1000;
    if ms < i64::MIN as i128 || ms > i64::MAX as i128 {
        None
    } else {
        Some(ms as i64)
    }
}

/// The item of a show that starts at `start_at` (milliseconds since the
/// epoch): it ends the show's length later. `None` if the end does not fit
/// in an `i64`.
pub fn place_show(show: &Show, start_at: i64) -> (r: Option<Item>)
    ensures
        match r {
            Some(it) => it@ == (ItemView {
                start_at: start_at as int,
                end_at: start_at + show.length_secs * 1000,
                name: show.name@,
                description: show.description@,
                hosts: views_of(show.hosts@),
            }),
            None => !fits_i64(start_at + show.length_secs * 1000),
        },
{
    let len_ms: i64 = show.length_secs as i64 * 1000;
    match start_at.checked_add(len_ms) {
        Some(end_at) => Some(
            Item {
                start_at,
                end_at,
                name: show.name.clone(),
                description: show.description.clone(),
                hosts: show.hosts.clone(),
            },
        ),
        None => None,
    }
}

/// The items of the listing, each placed in the local time zone: a show
/// starts when the local clock shows its start on its day, and ends its
/// length later. Fails with `ParseTimeError` exactly when a time range does
/// not parse, and otherwise with `LocalTimeInvalid` when a start does not
/// exist once in the local time zone or does not fit.
pub fn schedule_rns(doc: &Document, today: i32) -> (r: Result<Vec<Item>, ScheduleError>)
    ensures
        (r == Err::<Vec<Item>, ScheduleError>(ScheduleError::ParseTimeError)) <==> listing(
            doc.nodes@,
            weekday_of(today as int),
        ) is None,
        r matches Err(e) ==> e == ScheduleError::ParseTimeError || e
            == ScheduleError::LocalTimeInvalid,
        r == Err::<Vec<Item>, ScheduleError>(ScheduleError::LocalTimeInvalid) ==> (listing(
            doc.nodes@,
            weekday_of(today as int),
        ) matches Some(shows) && shows.len() > 0),
        r matches Ok(v) ==> listing(doc.nodes@, weekday_of(today as int)) matches Some(shows)
            && v@.len() == shows.len() && forall|k: int|
            0 <= k < v@.len() ==> {
                let it = #[trigger] v@[k]@;
                &&& wall_millis(today + shows[k].day_offset, shows[k].start_secs) - 86_400_000
                    < it.start_at < wall_millis(today + shows[k].day_offset, shows[k].start_secs)
                    + 86_400_000
                &&& (wall_millis(today + shows[k].day_offset, shows[k].start_secs) - it.start_at)
                    % 1000 == 0
                &&& it.end_at - it.start_at == shows[k].length_secs * 1000
                &&& it.name == shows[k].name
                &&& it.description == shows[k].description
                &&& it.hosts == shows[k].hosts
            },
{
    let shows = match scrape_listing(doc, today) {
        Ok(v) => v,
        Err(e) => return Err(e),
    };
    let mut out: Vec<Item> = Vec::new();
    let mut k: usize = 0;
    while k < shows.len()
        invariant
            listing(doc.nodes@, weekday_of(today as int)) == Some(shows_view(shows@)),
            k <= shows@.len(),
            out@.len() == k,
            forall|m: int|
                0 <= m < k ==> {
                    let it = #[trigger] out@[m]@;
                    &&& wall_millis(today + shows@[m].day_offset, shows@[m].start_secs as int)
                        - 86_400_000 < it.start_at < wall_millis(
                        today + shows@[m].day_offset,
                        shows@[m].start_secs as int,
                    ) + 86_400_000
                    &&& (wall_millis(today + shows@[m].day_offset, shows@[m].start_secs as int)
                        - it.start_at) % 1000 == 0
                    &&& it.end_at - it.start_at == shows@[m].length_secs * 1000
                    &&& it.name == shows@[m].name@
                    &&& it.description == shows@[m].description@
                    &&& it.hosts == views_of(shows@[m].hosts@)
                },
        decreases shows.len() - k,
    {
        let sh = &shows[k];
        let wall = match wall_clock_millis(today, sh.day_offset, sh.start_secs) {
            Some(w) => w,
            None => return Err(ScheduleError::LocalTimeInvalid),
        };
        let start_at = match local_to_utc_millis(wall) {
            Some(s) => s,
            None => return Err(ScheduleError::LocalTimeInvalid),
        };
        match place_show(sh, start_at) {
            Some(it) => out.push(it),
            None => return Err(ScheduleError::LocalTimeInvalid),
        }
        k = k + 1;
    }
    assert(shows_view(shows@).len() == out@.len());
    Ok(out)
}

/// The `c`-th card of the `p`-th tab.
pub open spec fn card_at(nodes: Seq<DomNode>, p: int, c: int) -> int {
    select_within(nodes, card_sel(), tabs_of(nodes)[p])[c]
}

/// Whether the `p`-th tab has a `c`-th card.
pub open spec fn is_card(nodes: Seq<DomNode>, p: int, c: int) -> bool {
    0 <= p < tabs_of(nodes).len() && 0 <= c < select_within(nodes, card_sel(), tabs_of(nodes)[p]).len()
}

/// Every card of every tab appears in a listing that reads, as the show that
/// the card reads as, dated by its tab.
pub proof fn lemma_card_in_listing(nodes: Seq<DomNode>, dow: int, p: int, c: int)
    requires
        listing(nodes, dow) is Some,
        is_card(nodes, p, c),
    ensures
        listing(nodes, dow) matches Some(shows) && exists|k: int|
            0 <= k < shows.len() && show_of(nodes, card_at(nodes, p, c), tab_offset(p, dow))
                == Some(#[trigger] shows[k]),
{
    let positions = Seq::new(tabs_of(nodes).len(), |p: int| p);
    let tf = tab_fn(nodes, dow);
    assert(listing(nodes, dow) == Some(concat_all(all_some(positions, tf)->Some_0)));
    let lists = all_some(positions, tf)->Some_0;
    lemma_all_some_pointwise(positions, tf);
    assert(tf(positions[p]) == Some(lists[p]));
    let cards = select_within(nodes, card_sel(), tabs_of(nodes)[p]);
    let sf = show_fn(nodes, tab_offset(p, dow));
    assert(all_some(cards, sf) == Some(lists[p]));
    lemma_all_some_pointwise(cards, sf);
    assert(sf(cards[c]) == Some(lists[p][c]));
    lemma_concat_index(lists, p, c);
    let k = concat_all(lists.take(p)).len() + c;
    assert(concat_all(lists)[k] == lists[p][c]);
    assert(show_of(nodes, card_at(nodes, p, c), tab_offset(p, dow)) == Some(concat_all(lists)[k]));
}

/// In a listing that reads, a card whose time text is `HH:MM - HH:MM` is a
/// show on its tab's day that starts at the first clock time and lasts the
/// absolute difference of the two: the literal clock difference when the
/// end is not before the start, and never a wrap past midnight.
pub proof fn lemma_clock_range_card(nodes: Seq<DomNode>, dow: int, p: int, c: int)
    requires
        listing(nodes, dow) is Some,
        is_card(nodes, p, c),
        is_clock_range(show_times(nodes, card_at(nodes, p, c))),
    ensures
        listing(nodes, dow) matches Some(shows) && exists|k: int|
            0 <= k < shows.len() && {
                let t = show_times(nodes, card_at(nodes, p, c));
                &&& (#[trigger] shows[k]).day_offset == tab_offset(p, dow)
                &&& shows[k].start_secs == hhmm_secs(t.subrange(0, 5))
                &&& shows[k].length_secs == abs_diff(
                    hhmm_secs(t.subrange(0, 5)),
                    hhmm_secs(t.subrange(8, 13)),
                )
            },
{
    lemma_card_in_listing(nodes, dow, p, c);
    let t = show_times(nodes, card_at(nodes, p, c));
    lemma_clock_range(t);
    let a = hhmm_secs(t.subrange(0, 5));
    let b = hhmm_secs(t.subrange(8, 13));
    assert(0 <= a < 86400 && 0 <= b < 86400);
}

/// In a listing that reads, a card without a description is a show with an
/// empty description.
pub proof fn lemma_card_without_description(nodes: Seq<DomNode>, dow: int, p: int, c: int)
    requires
        listing(nodes, dow) is Some,
        is_card(nodes, p, c),
        select_within(nodes, summary_sel(), card_at(nodes, p, c)).len() == 0,
    ensures
        listing(nodes, dow) matches Some(shows) && exists|k: int|
            0 <= k < shows.len() && (#[trigger] shows[k]).description == Seq::<char>::empty()
                && shows[k].day_offset == tab_offset(p, dow),
{
    lemma_card_in_listing(nodes, dow, p, c);
    lemma_missing_description_is_empty(nodes, card_at(nodes, p, c), tab_offset(p, dow));
}

} // verus!
