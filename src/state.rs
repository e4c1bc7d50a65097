//! The embedded application state of a schedule page, and its mapping into
//! schedule items.
use vstd::prelude::*;
use crate::dom::{
    Document, Selector, Simple, ints, lemma_select_range_selects, select_range, str_eq, text_of,
};
use crate::item::{Item, ItemView, ScheduleError, items_view, views_of};

verus! {

/// A dynamically typed value read back from a script environment.
pub enum JsValue {
    Null,
    Bool(bool),
    Number(i64),
    Str(String),
    List(Vec<JsValue>),
    /// Key/value pairs; a key is looked up by its first occurrence.
    Object(Vec<(String, JsValue)>),
}

/// The value stored under `key`, by its first occurrence.
pub open spec fn lookup(entries: Seq<(String, JsValue)>, key: Seq<char>) -> Option<JsValue>
    decreases entries.len(),
{
    if entries.len() == 0 {
        None
    } else if entries[0].0@ == key {
        Some(entries[0].1)
    } else {
        lookup(entries.drop_first(), key)
    }
}

/// `f` applied to each element, if it succeeds on all of them.
pub open spec fn all_some<A, B>(s: Seq<A>, f: spec_fn(A) -> Option<B>) -> Option<Seq<B>>
    decreases s.len(),
{
    if s.len() == 0 {
        Some(Seq::empty())
    } else {
        match (all_some(s.drop_last(), f), f(s.last())) {
            (Some(r), Some(b)) => Some(r.push(b)),
            _ => None,
        }
    }
}

/// The sequences joined end to end.
pub open spec fn concat_all<B>(ss: Seq<Seq<B>>) -> Seq<B>
    decreases ss.len(),
{
    if ss.len() == 0 {
        Seq::empty()
    } else {
        concat_all(ss.drop_last()) + ss.last()
    }
}

/// A host's display name: first name, one space, last name.
pub open spec fn host_name(h: JsValue) -> Option<Seq<char>> {
    match h {
        JsValue::Object(e) => match (lookup(e@, "firstname"@), lookup(e@, "lastname"@)) {
            (Some(JsValue::Str(f)), Some(JsValue::Str(l))) => Some(f@ + " "@ + l@),
            _ => None,
        },
        _ => None,
    }
}

/// [`host_name`] as a function value.
pub open spec fn host_fn() -> spec_fn(JsValue) -> Option<Seq<char>> {
    |h: JsValue| host_name(h)
}

/// The item that a raw item value maps to, if it has the expected shape.
pub open spec fn item_of(v: JsValue) -> Option<ItemView> {
    match v {
        JsValue::Object(e) => match (
            lookup(e@, "start_at"@),
            lookup(e@, "end_at"@),
            lookup(e@, "hosts"@),
            lookup(e@, "program"@),
        ) {
            (
                Some(JsValue::Number(s)),
                Some(JsValue::Number(t)),
                Some(JsValue::List(h)),
                Some(JsValue::Object(p)),
            ) => match (
                all_some(h@, host_fn()),
                lookup(p@, "name"@),
                lookup(p@, "description"@),
            ) {
                (Some(hosts), Some(JsValue::Str(n)), Some(JsValue::Str(d))) => Some(
                    ItemView {
                        start_at: s as int,
                        end_at: t as int,
                        name: n@,
                        description: d@,
                        hosts,
                    },
                ),
                _ => None,
            },
            _ => None,
        },
        _ => None,
    }
}

/// The raw item values listed under a day value's `items` key.
pub open spec fn day_list(d: JsValue) -> Option<Seq<JsValue>> {
    match d {
        JsValue::Object(e) => match lookup(e@, "items"@) {
            Some(JsValue::List(l)) => Some(l@),
            _ => None,
        },
        _ => None,
    }
}

/// [`day_list`] as a function value.
pub open spec fn day_fn() -> spec_fn(JsValue) -> Option<Seq<JsValue>> {
    |d: JsValue| day_list(d)
}

/// [`item_of`] as a function value.
pub open spec fn item_fn() -> spec_fn(JsValue) -> Option<ItemView> {
    |v: JsValue| item_of(v)
}

/// All raw item values of a list of days, day by day, if every day has the
/// expected shape.
pub open spec fn raw_items(root: JsValue) -> Option<Seq<JsValue>> {
    match root {
        JsValue::List(days) => match all_some(days@, day_fn()) {
            Some(lists) => Some(concat_all(lists)),
            None => None,
        },
        _ => None,
    }
}

/// The items that a state tree maps to, or `None` on any shape mismatch.
pub open spec fn schedule_items(root: JsValue) -> Option<Seq<ItemView>> {
    match raw_items(root) {
        Some(raw) => all_some(raw, item_fn()),
        None => None,
    }
}

/// Once a prefix fails, the whole sequence fails.
pub proof fn lemma_all_some_prefix_none<A, B>(s: Seq<A>, f: spec_fn(A) -> Option<B>, i: int)
    requires
        0 <= i <= s.len(),
        all_some(s.take(i), f) is None,
    ensures
        all_some(s, f) is None,
    decreases s.len(),
{
    if i == s.len() {
        assert(s.take(i) =~= s);
    } else {
        assert(s.drop_last().take(i) =~= s.take(i));
        lemma_all_some_prefix_none(s.drop_last(), f, i);
    }
}

/// `all_some` succeeds exactly when `f` succeeds on every element, and then
/// holds the results in order.
pub proof fn lemma_all_some_pointwise<A, B>(s: Seq<A>, f: spec_fn(A) -> Option<B>)
    ensures
        all_some(s, f) is Some <==> forall|k: int| 0 <= k < s.len() ==> (#[trigger] f(s[k])) is Some,
        all_some(s, f) matches Some(r) ==> r.len() == s.len() && forall|k: int|
            0 <= k < s.len() ==> f(s[k]) == Some(#[trigger] r[k]),
    decreases s.len(),
{
    if s.len() > 0 {
        let t = s.drop_last();
        lemma_all_some_pointwise(t, f);
        assert forall|k: int| 0 <= k < t.len() implies t[k] == s[k] by {}
        if all_some(s, f) is None && all_some(t, f) is None {
            let k = choose|k: int| 0 <= k < t.len() && (#[trigger] f(t[k])) is None;
            assert(f(s[k]) is None);
        }
        if all_some(s, f) is None && all_some(t, f) is Some {
            assert(f(s[s.len() - 1]) is None);
        }
    }
}

/// A prefix of the sequences, joined, is a prefix of all of them joined.
pub proof fn lemma_concat_prefix<B>(ss: Seq<Seq<B>>, n: int)
    requires
        0 <= n <= ss.len(),
    ensures
        concat_all(ss.take(n)).len() <= concat_all(ss).len(),
        concat_all(ss).take(concat_all(ss.take(n)).len() as int) == concat_all(ss.take(n)),
    decreases ss.len(),
{
    if n == ss.len() {
        assert(ss.take(n) =~= ss);
        assert(concat_all(ss).take(concat_all(ss).len() as int) =~= concat_all(ss));
    } else {
        let t = ss.drop_last();
        assert(t.take(n) =~= ss.take(n));
        lemma_concat_prefix(t, n);
        let k = concat_all(ss.take(n)).len() as int;
        assert(concat_all(ss).take(k) =~= concat_all(t).take(k));
    }
}

/// Every item of a well-shaped state tree is mapped, in order: the mapped
/// sequence is as long as all the days' item lists together, and its `k`-th
/// item copies the `k`-th raw item's fields (each host named by first name, a
/// space and last name, in source order).
pub proof fn lemma_mapping_is_verbatim(root: JsValue)
    requires
        schedule_items(root) is Some,
    ensures
        raw_items(root) matches Some(raw) && schedule_items(root) matches Some(items) && items.len()
            == raw.len() && forall|k: int| 0 <= k < raw.len() ==> item_of(#[trigger] raw[k]) == Some(items[k]),
{
    let raw = raw_items(root)->Some_0;
    lemma_all_some_pointwise(raw, item_fn());
    let items = schedule_items(root)->Some_0;
    assert forall|k: int| 0 <= k < raw.len() implies item_of(#[trigger] raw[k]) == Some(items[k]) by {
        assert(item_fn()(raw[k]) == Some(items[k]));
    }
}

/// An item value that lacks one of `start_at`, `end_at`, `hosts`, `program`,
/// or holds one of them with the wrong kind of value, does not map.
pub open spec fn has_required_fields(v: JsValue) -> bool {
    match v {
        JsValue::Object(e) => lookup(e@, "start_at"@) matches Some(JsValue::Number(_)) && lookup(
            e@,
            "end_at"@,
        ) matches Some(JsValue::Number(_)) && lookup(e@, "hosts"@) matches Some(JsValue::List(_))
            && lookup(e@, "program"@) matches Some(JsValue::Object(_)),
        _ => false,
    }
}

/// A single item that does not map fails the whole state tree: no partial
/// result is produced.
pub proof fn lemma_bad_item_fails_all(root: JsValue, k: int)
    requires
        raw_items(root) matches Some(raw) && 0 <= k < raw.len() && (item_of(raw[k]) is None
            || !has_required_fields(raw[k])),
    ensures
        schedule_items(root) is None,
{
    let raw = raw_items(root)->Some_0;
    lemma_all_some_pointwise(raw, item_fn());
    assert(item_fn()(raw[k]) is None);
}

/// A `script` element directly under `body`.
pub open spec fn script_sel() -> Selector<'static> {
    Selector { parent: Some(Simple::Tag("body")), node: Simple::Tag("script") }
}

/// The text of the first `script` element directly under `body`: the
/// program that holds the page's embedded state. `ScriptMissing` exactly
/// when there is none.
pub fn state_script_text(doc: &Document) -> (r: Result<String, ScheduleError>)
    ensures
        ({
            let found = select_range(doc.nodes@, script_sel(), 0, doc.nodes@.len() as int);
            match r {
                Ok(t) => found.len() > 0 && t@ == text_of(doc.nodes@, found[0]),
                Err(e) => e == ScheduleError::ScriptMissing && found.len() == 0,
            }
        }),
{
    let sel = Selector { parent: Some(Simple::Tag("body")), node: Simple::Tag("script") };
    let found = doc.select_in(&sel, 0, doc.nodes.len());
    if found.len() == 0 {
        return Err(ScheduleError::ScriptMissing);
    }
    proof {
        lemma_select_range_selects(doc.nodes@, script_sel(), 0, doc.nodes@.len() as int);
        assert(ints(found@)[0] == found@[0] as int);
    }
    Ok(doc.text_of(found[0]))
}

/// The value stored under `key`, by its first occurrence.
pub fn get<'a>(entries: &'a Vec<(String, JsValue)>, key: &str) -> (r: Option<&'a JsValue>)
    ensures
        match r {
            Some(v) => lookup(entries@, key@) == Some(*v),
            None => lookup(entries@, key@) is None,
        },
{
    let mut i: usize = 0;
    assert(entries@.subrange(0, entries@.len() as int) =~= entries@);
    while i < entries.len()
        invariant
            i <= entries@.len(),
            lookup(entries@, key@) == lookup(entries@.subrange(i as int, entries@.len() as int), key@),
        decreases entries.len() - i,
    {
        proof {
            let rest = entries@.subrange(i as int, entries@.len() as int);
            assert(rest.drop_first() =~= entries@.subrange(i + 1, entries@.len() as int));
        }
        if str_eq(&entries[i].0, key) {
            return Some(&entries[i].1);
        }
        i = i + 1;
    }
    None
}

/// The `c`-th element of the `p`-th sequence sits, in all of them joined,
/// after the elements of the sequences before it.
pub proof fn lemma_concat_index<B>(ss: Seq<Seq<B>>, p: int, c: int)
    requires
        0 <= p < ss.len(),
        0 <= c < ss[p].len(),
    ensures
        concat_all(ss.take(p)).len() + c < concat_all(ss).len(),
        concat_all(ss)[concat_all(ss.take(p)).len() + c] == ss[p][c],
{
    assert(ss.take(p + 1).drop_last() =~= ss.take(p));
    assert(ss.take(p + 1).last() == ss[p]);
    let upto = concat_all(ss.take(p + 1));
    assert(upto == concat_all(ss.take(p)) + ss[p]);
    lemma_concat_prefix(ss, p + 1);
    let i = concat_all(ss.take(p)).len() + c;
    assert(concat_all(ss).take(upto.len() as int)[i] == concat_all(ss)[i]);
}

fn host_display_name(h: &JsValue) -> (r: Option<String>)
    ensures
        match r {
            Some(s) => host_name(*h) == Some(s@),
            None => host_name(*h) is None,
        },
{
    match h {
        JsValue::Object(e) => match (get(e, "firstname"), get(e, "lastname")) {
            (Some(JsValue::Str(f)), Some(JsValue::Str(l))) => {
                let mut s = f.clone();
                s.append(" ");
                s.append(l.as_str());
                Some(s)
            },
            _ => None,
        },
        _ => None,
    }
}

fn host_names(hs: &Vec<JsValue>) -> (r: Option<Vec<String>>)
    ensures
        match r {
            Some(v) => all_some(hs@, host_fn()) == Some(views_of(v@)),
            None => all_some(hs@, host_fn()) is None,
        },
{
    let mut out: Vec<String> = Vec::new();
    let mut i: usize = 0;
    assert(hs@.take(0) =~= Seq::<JsValue>::empty());
    assert(views_of(out@) =~= Seq::<Seq<char>>::empty());
    while i < hs.len()
        invariant
            i <= hs@.len(),
            all_some(hs@.take(i as int), host_fn()) == Some(views_of(out@)),
        decreases hs.len() - i,
    {
        assert(hs@.take(i + 1).drop_last() =~= hs@.take(i as int));
        match host_display_name(&hs[i]) {
            Some(name) => {
                let ghost before = out@;
                out.push(name);
                assert(views_of(out@) =~= views_of(before).push(name@));
            },
            None => {
                proof {
                    lemma_all_some_prefix_none(hs@, host_fn(), i + 1);
                }
                return None;
            },
        }
        i = i + 1;
    }
    assert(hs@.take(hs@.len() as int) =~= hs@);
    Some(out)
}

/// Maps one raw item value into an item, if it has the expected shape.
pub fn map_item(v: &JsValue) -> (r: Option<Item>)
    ensures
        match r {
            Some(it) => item_of(*v) == Some(it@),
            None => item_of(*v) is None,
        },
{
    match v {
        JsValue::Object(e) => match (
            get(e, "start_at"),
            get(e, "end_at"),
            get(e, "hosts"),
            get(e, "program"),
        ) {
            (
                Some(JsValue::Number(s)),
                Some(JsValue::Number(t)),
                Some(JsValue::List(h)),
                Some(JsValue::Object(p)),
            ) => match (host_names(h), get(p, "name"), get(p, "description")) {
                (Some(hosts), Some(JsValue::Str(n)), Some(JsValue::Str(d))) => {
                    let it = Item {
                        start_at: *s,
                        end_at: *t,
                        name: n.clone(),
                        description: d.clone(),
                        hosts,
                    };
                    Some(it)
                },
                _ => None,
            },
            _ => None,
        },
        _ => None,
    }
}

/// Validates a state tree against the expected shape (a list of days, each
/// with a list of items) and maps it into schedule items, all or nothing.
pub fn map_schedule(root: &JsValue) -> (r: Result<Vec<Item>, ScheduleError>)
    ensures
        match r {
            Ok(v) => schedule_items(*root) == Some(items_view(v@)),
            Err(e) => e == ScheduleError::JsValueMismatch && schedule_items(*root) is None,
        },
{
    let days = match root {
        JsValue::List(days) => days,
        _ => return Err(ScheduleError::JsValueMismatch),
    };
    let mut out: Vec<Item> = Vec::new();
    let ghost mut lists: Seq<Seq<JsValue>> = Seq::empty();
    let mut i: usize = 0;
    assert(days@.take(0) =~= Seq::<JsValue>::empty());
    assert(items_view(out@) =~= Seq::<ItemView>::empty());
    while i < days.len()
        invariant
            i <= days@.len(),
            *root == JsValue::List(*days),
            all_some(days@.take(i as int), day_fn()) == Some(lists),
            all_some(concat_all(lists), item_fn()) == Some(items_view(out@)),
        decreases days.len() - i,
    {
        assert(days@.take(i + 1).drop_last() =~= days@.take(i as int));
        let items = match &days[i] {
            JsValue::Object(e) => match get(e, "items") {
                Some(JsValue::List(items)) => items,
                _ => {
                    proof {
                        lemma_all_some_prefix_none(days@, day_fn(), i + 1);
                    }
                    return Err(ScheduleError::JsValueMismatch);
                },
            },
            _ => {
                proof {
                    lemma_all_some_prefix_none(days@, day_fn(), i + 1);
                }
                return Err(ScheduleError::JsValueMismatch);
            },
        };
        let ghost next = lists.push(items@);
        assert(next.drop_last() =~= lists);
        let mut j: usize = 0;
        assert(concat_all(lists) + items@.take(0) =~= concat_all(lists));
        while j < items.len()
            invariant
                i < days@.len(),
                j <= items@.len(),
                *root == JsValue::List(*days),
                all_some(days@.take(i + 1), day_fn()) == Some(next),
                next == lists.push(items@),
                concat_all(next) == concat_all(lists) + items@,
                all_some(concat_all(lists) + items@.take(j as int), item_fn()) == Some(items_view(out@)),
            decreases items.len() - j,
        {
            let ghost seen = concat_all(lists) + items@.take(j as int);
            assert((concat_all(lists) + items@.take(j + 1)).drop_last() =~= seen);
            assert((concat_all(lists) + items@.take(j + 1)).last() == items@[j as int]);
            match map_item(&items[j]) {
                Some(it) => {
                    let ghost before = out@;
                    out.push(it);
                    assert(items_view(out@) =~= items_view(before).push(it@));
                },
                None => {
                    proof {
                        let full = concat_all(lists) + items@.take(j + 1);
                        match all_some(days@, day_fn()) {
                            Some(all) => {
                                lemma_all_some_pointwise(days@, day_fn());
                                lemma_all_some_pointwise(days@.take(i + 1), day_fn());
                                assert(all.take(i + 1) =~= next);
                                lemma_concat_prefix(all, i + 1);
                                assert(concat_all(all).take(full.len() as int) =~= full);
                                lemma_all_some_prefix_none(concat_all(all), item_fn(), full.len() as int);
                            },
                            None => {},
                        }
                    }
                    return Err(ScheduleError::JsValueMismatch);
                },
            }
            j = j + 1;
        }
        assert(items@.take(items@.len() as int) =~= items@);
        proof {
            lists = next;
        }
        i = i + 1;
    }
    assert(days@.take(days@.len() as int) =~= days@);
    Ok(out)
}

} // verus!
