//! Clock times, time ranges and the calendar arithmetic of a weekly listing.
use vstd::prelude::*;

verus! {

/// Characters that `char::is_whitespace` accepts (Unicode `White_Space`).
pub open spec fn is_ws(c: char) -> bool {
    c == '\t' || c == '\n' || c == '\x0B' || c == '\x0C' || c == '\r' || c == ' ' || c == '\u{85}'
        || c == '\u{A0}' || c == '\u{1680}' || ('\u{2000}' <= c && c <= '\u{200A}') || c
        == '\u{2028}' || c == '\u{2029}' || c == '\u{202F}' || c == '\u{205F}' || c == '\u{3000}'
}

/// `s` without its leading whitespace.
pub open spec fn trim_start(s: Seq<char>) -> Seq<char>
    decreases s.len(),
{
    if s.len() > 0 && is_ws(s[0]) {
        trim_start(s.drop_first())
    } else {
        s
    }
}

/// `s` without its trailing whitespace.
pub open spec fn trim_end(s: Seq<char>) -> Seq<char>
    decreases s.len(),
{
    if s.len() > 0 && is_ws(s.last()) {
        trim_end(s.drop_last())
    } else {
        s
    }
}

/// `s` without leading and trailing whitespace.
pub open spec fn trimmed(s: Seq<char>) -> Seq<char> {
    trim_end(trim_start(s))
}

/// Relies on `str::trim`: the string without leading and trailing whitespace.
#[verifier::external_body]
pub(crate) fn trim(s: &str) -> (r: String)
    ensures
        r@ == trimmed(s@),
{
    s.trim().to_string()
}

/// Relies on `str::chars`: the characters of the string, in order.
#[verifier::external_body]
fn chars_of(s: &str) -> (r: Vec<char>)
    ensures
        r@ == s@,
{
    s.chars().collect()
}

/// Relies on collecting characters into a `String`: those of `v[lo..hi]`, in
/// order.
#[verifier::external_body]
fn string_of(v: &Vec<char>, lo: usize, hi: usize) -> (r: String)
    requires
        lo <= hi <= v@.len(),
    ensures
        r@ == v@.subrange(lo as int, hi as int),
{
    v[lo..hi].iter().collect()
}

/// The value of an ASCII digit.
pub open spec fn digit(c: char) -> int {
    c as int - '0' as int
}

/// Whether `c` is an ASCII digit.
pub open spec fn is_digit(c: char) -> bool {
    '0' <= c && c <= '9'
}

/// Whether `s` is a 24-hour clock time written `HH:MM`.
pub open spec fn is_hhmm(s: Seq<char>) -> bool {
    s.len() == 5 && is_digit(s[0]) && is_digit(s[1]) && s[2] == ':' && is_digit(s[3]) && is_digit(
        s[4],
    ) && digit(s[0]) * 10 + digit(s[1]) < 24 && digit(s[3]) * 10 + digit(s[4]) < 60
}

/// The seconds after midnight of an `HH:MM` clock time.
pub open spec fn hhmm_secs(s: Seq<char>) -> int {
    (digit(s[0]) * 10 + digit(s[1])) * 3600 + (digit(s[3]) * 10 + digit(s[4])) * 60
}

/// How many ASCII digits, at most two, start `t`.
pub open spec fn lead_digits(t: Seq<char>) -> int {
    if t.len() >= 2 && is_digit(t[0]) && is_digit(t[1]) {
        2
    } else if t.len() >= 1 && is_digit(t[0]) {
        1
    } else {
        0
    }
}

/// The value of the first `n` (one or two) digits of `t`.
pub open spec fn digits_value(t: Seq<char>, n: int) -> int {
    if n == 2 {
        digit(t[0]) * 10 + digit(t[1])
    } else {
        digit(t[0])
    }
}

/// What the format `%H:%M` accepts, in seconds after midnight: optional
/// leading whitespace, one or two digits of an hour below 24, `:`, optional
/// whitespace, one or two digits of a minute below 60, and nothing more.
pub open spec fn clock_time(s: Seq<char>) -> Option<u32> {
    let t = trim_start(s);
    let hn = lead_digits(t);
    if hn == 0 || t.len() <= hn || t[hn] != ':' {
        None
    } else {
        let u = trim_start(t.subrange(hn + 1, t.len() as int));
        let mn = lead_digits(u);
        let h = digits_value(t, hn);
        let m = digits_value(u, mn);
        if mn == 0 || u.len() != mn || h >= 24 || m >= 60 {
            None
        } else {
            Some((h * 3600 + m * 60) as u32)
        }
    }
}

/// Relies on `chrono::NaiveTime::parse_from_str` with the format `%H:%M`:
/// numeric fields skip leading whitespace and take one or two ASCII digits,
/// the `:` must follow at once, hour and minute must be in range, seconds
/// are zero, and trailing text is refused.
#[verifier::external_body]
fn parse_hm(s: &str) -> (r: Option<u32>)
    ensures
        r == clock_time(s@),
{
    chrono::NaiveTime::parse_from_str(s, "%H:%M").ok().map(
        |t| chrono::Timelike::num_seconds_from_midnight(&t),
    )
}

/// A clock time written `HH:MM` is read as that time.
pub proof fn lemma_hhmm_clock_time(s: Seq<char>)
    requires
        is_hhmm(s),
    ensures
        clock_time(s) == Some(hhmm_secs(s) as u32),
{
    assert(trim_start(s) == s);
    let u = s.subrange(3, 5);
    assert(u[0] == s[3] && u[1] == s[4]);
    assert(trim_start(u) == u);
}

/// Whether the separator ` - ` starts at `i`.
pub open spec fn sep_at(s: Seq<char>, i: int) -> bool {
    0 <= i && i + 3 <= s.len() && s[i] == ' ' && s[i + 1] == '-' && s[i + 2] == ' '
}

/// Where the first separator at or after `from` starts, or -1 if none does.
pub open spec fn first_sep(s: Seq<char>, from: int) -> int
    decreases s.len() - from,
{
    if from < 0 || from + 3 > s.len() {
        -1
    } else if sep_at(s, from) {
        from
    } else {
        first_sep(s, from + 1)
    }
}

/// The first piece of `s` split at ` - `.
pub open spec fn first_piece(s: Seq<char>) -> Seq<char> {
    let f = first_sep(s, 0);
    if f < 0 {
        s
    } else {
        s.subrange(0, f)
    }
}

/// The second piece of `s` split at ` - `, or `00:00` if there is none.
pub open spec fn second_piece(s: Seq<char>) -> Seq<char> {
    let f = first_sep(s, 0);
    if f < 0 {
        "00:00"@
    } else {
        let g = first_sep(s, f + 3);
        s.subrange(f + 3, if g < 0 { s.len() as int } else { g })
    }
}

/// The absolute difference of two integers.
pub open spec fn abs_diff(a: int, b: int) -> int {
    if a <= b {
        b - a
    } else {
        a - b
    }
}

/// The start (seconds after midnight) and length (seconds) of a time range
/// `HH:MM - HH:MM`; an end before the start counts backwards from the start.
pub open spec fn time_range(text: Seq<char>) -> Option<(u32, u32)> {
    let t = trimmed(text);
    match (clock_time(trimmed(first_piece(t))), clock_time(trimmed(second_piece(t)))) {
        (Some(a), Some(b)) => Some((a, abs_diff(a as int, b as int) as u32)),
        _ => None,
    }
}

/// Whether `s` is two clock times written `HH:MM - HH:MM`.
pub open spec fn is_clock_range(s: Seq<char>) -> bool {
    s.len() == 13 && is_hhmm(s.subrange(0, 5)) && sep_at(s, 5) && is_hhmm(s.subrange(8, 13))
}

/// A clock time carries no surrounding whitespace.
proof fn lemma_hhmm_trimmed(s: Seq<char>)
    requires
        is_hhmm(s),
    ensures
        trimmed(s) == s,
{
    assert(trim_start(s) == s);
    assert(trim_end(s) == s);
}

/// How `HH:MM - HH:MM` splits into its two clock times.
proof fn lemma_clock_range_pieces(s: Seq<char>)
    requires
        is_clock_range(s),
    ensures
        trimmed(s) == s,
        first_piece(s) == s.subrange(0, 5),
        second_piece(s) == s.subrange(8, 13),
{
    assert(s[0] == s.subrange(0, 5)[0]);
    assert(s[1] == s.subrange(0, 5)[1]);
    assert(s[3] == s.subrange(0, 5)[3]);
    assert(s[4] == s.subrange(0, 5)[4]);
    assert(s[8] == s.subrange(8, 13)[0]);
    assert(s[9] == s.subrange(8, 13)[1]);
    assert(s[10] == s.subrange(8, 13)[2]);
    assert(s[12] == s.subrange(8, 13)[4]);
    assert(trim_start(s) == s);
    assert(trim_end(s) == s);
    assert(first_sep(s, 5) == 5);
    assert(first_sep(s, 4) == 5);
    assert(first_sep(s, 3) == 5);
    assert(first_sep(s, 2) == 5);
    assert(first_sep(s, 1) == 5);
    assert(first_sep(s, 0) == 5);
    assert(first_sep(s, 11) == -1);
    assert(first_sep(s, 10) == -1);
    assert(first_sep(s, 9) == -1);
    assert(first_sep(s, 8) == -1);
}

/// A range `HH:MM - HH:MM` starts at its first clock time and lasts the
/// absolute difference of its two clock times: the literal difference when
/// the end is not before the start, and not a wrap past midnight when it is.
pub proof fn lemma_clock_range(s: Seq<char>)
    requires
        is_clock_range(s),
    ensures
        time_range(s) == Some(
            (
                hhmm_secs(s.subrange(0, 5)) as u32,
                abs_diff(hhmm_secs(s.subrange(0, 5)), hhmm_secs(s.subrange(8, 13))) as u32,
            ),
        ),
{
    lemma_clock_range_pieces(s);
    lemma_hhmm_trimmed(s.subrange(0, 5));
    lemma_hhmm_trimmed(s.subrange(8, 13));
    lemma_hhmm_clock_time(s.subrange(0, 5));
    lemma_hhmm_clock_time(s.subrange(8, 13));
}

fn find_sep(v: &Vec<char>, from: usize) -> (r: Option<usize>)
    ensures
        match r {
            Some(i) => i as int == first_sep(v@, from as int) && from <= i && i + 3 <= v@.len(),
            None => first_sep(v@, from as int) == -1,
        },
{
    let mut i: usize = from;
    while i < v.len() && v.len() - i >= 3
        invariant
            from <= i,
            first_sep(v@, from as int) == first_sep(v@, i as int),
        decreases v.len() - i,
    {
        if v[i] == ' ' && v[i + 1] == '-' && v[i + 2] == ' ' {
            return Some(i);
        }
        i = i + 1;
    }
    None
}

/// Parses a time range `HH:MM - HH:MM` into its start, in seconds after
/// midnight, and its length in seconds. The length is the absolute clock
/// difference: `23:00 - 01:00` lasts twenty-two hours. `None` when either
/// clock time does not parse.
pub fn parse_time_range(text: &str) -> (r: Option<(u32, u32)>)
    ensures
        r == time_range(text@),
        is_clock_range(text@) ==> r == Some(
            (
                hhmm_secs(text@.subrange(0, 5)) as u32,
                abs_diff(hhmm_secs(text@.subrange(0, 5)), hhmm_secs(text@.subrange(8, 13))) as u32,
            ),
        ),
{
    let t = trim(text);
    let v = chars_of(t.as_str());
    proof {
        if is_clock_range(text@) {
            lemma_clock_range_pieces(text@);
            lemma_clock_range(text@);
        }
    }
    let n = v.len();
    let (first, second) = match find_sep(&v, 0) {
        Some(f) => {
            let end = match find_sep(&v, f + 3) {
                Some(g) => g,
                None => n,
            };
            (string_of(&v, 0, f), string_of(&v, f + 3, end))
        },
        None => (t.clone(), String::from_str("00:00")),
    };
    let a = parse_hm(trim(first.as_str()).as_str());
    let b = parse_hm(trim(second.as_str()).as_str());
    match (a, b) {
        (Some(a), Some(b)) => {
            let d = if a <= b {
                b - a
            } else {
                a - b
            };
            Some((a, d))
        },
        _ => None,
    }
}

/// The weekday of a day counted from 1970-01-01, as days after Monday.
pub open spec fn weekday_of(day: int) -> int {
    (day + 3) % 7
}

/// How many days after today the tab at position `tab` of a Monday-first week
/// falls, when today is `dow` days after Monday: tabs before today roll into
/// the following week.
pub open spec fn tab_offset(tab: int, dow: int) -> int {
    if tab >= dow {
        tab - dow
    } else {
        tab - dow + 7
    }
}

/// The weekday of a day counted from 1970-01-01, as days after Monday.
pub fn weekday_from_monday(day: i32) -> (r: u32)
    ensures
        r == weekday_of(day as int),
        r < 7,
{
    let shifted: i64 = day as i64 + 3 + 2_149_000_000;
    assert(shifted > 0);
    assert((shifted as int) % 7 == (day as int + 3) % 7) by (nonlinear_arith)
        requires
            shifted == day as int + 3 + 7 * 307_000_000,
    ;
    ((shifted as u64) % 7) as u32
}

/// How many days after today the tab at position `tab` falls, when today is
/// `dow` days after Monday.
pub fn tab_day_offset(tab: usize, dow: u32) -> (r: usize)
    requires
        dow < 7,
    ensures
        r == tab_offset(tab as int, dow as int),
{
    if tab >= dow as usize {
        tab - dow as usize
    } else {
        tab + 7 - dow as usize
    }
}

/// Milliseconds from the epoch to a wall-clock instant, ignoring time zones.
pub open spec fn wall_millis(day: int, secs: int) -> int {
    (day * 86400 + secs) * 1000
}

/// Relies on `chrono::Local::from_local_datetime`: the instant, in
/// milliseconds since the epoch, at which the local clock shows the given
/// wall-clock time; `None` where it shows it never or twice. The two differ
/// by the zone's offset, a whole number of seconds under a day
/// (`FixedOffset::east_opt`).
#[verifier::external_body]
pub(crate) fn local_to_utc_millis(wall_ms: i64) -> (r: Option<i64>)
    ensures
        r matches Some(u) ==> wall_ms - 86_400_000 < u < wall_ms + 86_400_000 && (wall_ms - u)
            % 1000 == 0,
{
    let naive = chrono::DateTime::from_timestamp_millis(wall_ms)?.naive_utc();
    let local = chrono::TimeZone::from_local_datetime(&chrono::Local, &naive).single()?;
    Some(local.timestamp_millis())
}

} // verus!
