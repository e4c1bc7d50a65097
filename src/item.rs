use vstd::prelude::*;

verus! {

/// What a schedule item is, mathematically.
pub struct ItemView {
    pub start_at: int,
    pub end_at: int,
    pub name: Seq<char>,
    pub description: Seq<char>,
    pub hosts: Seq<Seq<char>>,
}

/// One scheduled programme occurrence; instants are milliseconds since the
/// Unix epoch.
pub struct Item {
    pub start_at: i64,
    pub end_at: i64,
    pub name: String,
    pub description: String,
    pub hosts: Vec<String>,
}

/// The views of a sequence of strings.
pub open spec fn views_of(v: Seq<String>) -> Seq<Seq<char>> {
    v.map_values(|s: String| s@)
}

impl View for Item {
    type V = ItemView;

    open spec fn view(&self) -> ItemView {
        ItemView {
            start_at: self.start_at as int,
            end_at: self.end_at as int,
            name: self.name@,
            description: self.description@,
            hosts: views_of(self.hosts@),
        }
    }
}

/// The views of a sequence of items.
pub open spec fn items_view(v: Seq<Item>) -> Seq<ItemView> {
    v.map_values(|i: Item| i@)
}

/// Why a schedule could not be produced.
#[derive(Debug, Clone, Copy, PartialEq, Eq, Structural)]
pub enum ScheduleError {
    /// The embedded state does not have the expected shape.
    JsValueMismatch,
    /// The page holds no script element under its body.
    ScriptMissing,
    /// A time of day could not be parsed.
    ParseTimeError,
    /// A wall-clock instant does not exist once, or at all, in the local time
    /// zone, or lies outside the representable range.
    LocalTimeInvalid,
}

} // verus!
