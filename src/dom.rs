//! A parsed HTML document, flattened in document order, and the queries that
//! the scrapers make of it.
use vstd::prelude::*;

verus! {

/// One node of a document: an element or a run of text.
pub struct DomNode {
    /// The element's tag name; empty for text.
    pub name: String,
    pub is_text: bool,
    /// The text of a text node; empty for an element.
    pub text: String,
    /// The element's class list.
    pub classes: Vec<String>,
    /// The position of the parent node, if any.
    pub parent: Option<usize>,
    /// The position just past the node's last descendant.
    pub end: usize,
}

/// A document: its nodes in document order, each followed by its
/// descendants.
pub struct Document {
    pub nodes: Vec<DomNode>,
}

/// A test on one node.
pub enum Simple<'a> {
    /// An element that carries this class.
    Class(&'a str),
    /// An element with this tag name.
    Tag(&'a str),
}

/// A node test, and optionally a test that the node's parent must pass.
pub struct Selector<'a> {
    pub parent: Option<Simple<'a>>,
    pub node: Simple<'a>,
}

/// Whether `n` is an element carrying class `c`.
pub open spec fn has_class(n: DomNode, c: Seq<char>) -> bool {
    !n.is_text && exists|k: int| 0 <= k < n.classes@.len() && (#[trigger] n.classes@[k])@ == c
}

/// Whether `n` passes the test `s`.
pub open spec fn simple_matches(n: DomNode, s: Simple) -> bool {
    match s {
        Simple::Class(c) => has_class(n, c@),
        Simple::Tag(t) => !n.is_text && n.name@ == t@,
    }
}

/// Whether the node at `j` is selected by `sel`.
pub open spec fn selects(nodes: Seq<DomNode>, sel: Selector, j: int) -> bool {
    0 <= j < nodes.len() && simple_matches(nodes[j], sel.node) && match sel.parent {
        None => true,
        Some(ps) => match nodes[j].parent {
            Some(p) => p < nodes.len() && simple_matches(nodes[p as int], ps),
            None => false,
        },
    }
}

/// The positions in `lo..hi` that `sel` selects, in order.
pub open spec fn select_range(nodes: Seq<DomNode>, sel: Selector, lo: int, hi: int) -> Seq<int>
    decreases hi - lo,
{
    if hi <= lo {
        Seq::empty()
    } else if selects(nodes, sel, hi - 1) {
        select_range(nodes, sel, lo, hi - 1).push(hi - 1)
    } else {
        select_range(nodes, sel, lo, hi - 1)
    }
}

/// Every position listed is selected.
pub proof fn lemma_select_range_selects(nodes: Seq<DomNode>, sel: Selector, lo: int, hi: int)
    ensures
        forall|k: int|
            0 <= k < select_range(nodes, sel, lo, hi).len() ==> selects(
                nodes,
                sel,
                #[trigger] select_range(nodes, sel, lo, hi)[k],
            ),
    decreases hi - lo,
{
    if hi > lo {
        lemma_select_range_selects(nodes, sel, lo, hi - 1);
        let prev = select_range(nodes, sel, lo, hi - 1);
        let cur = select_range(nodes, sel, lo, hi);
        assert forall|k: int| 0 <= k < cur.len() implies selects(nodes, sel, #[trigger] cur[k]) by {
            if k < prev.len() {
                assert(cur[k] == prev[k]);
            }
        }
    }
}

/// Where the descendants of the node at `i` end.
pub open spec fn subtree_end(nodes: Seq<DomNode>, i: int) -> int {
    let e = nodes[i].end as int;
    if e <= i {
        i + 1
    } else if e > nodes.len() {
        nodes.len() as int
    } else {
        e
    }
}

/// The positions of the descendants of the node at `i` that `sel` selects.
pub open spec fn select_within(nodes: Seq<DomNode>, sel: Selector, i: int) -> Seq<int> {
    select_range(nodes, sel, i + 1, subtree_end(nodes, i))
}

/// The text of the text nodes in `lo..hi`, joined.
pub open spec fn text_range(nodes: Seq<DomNode>, lo: int, hi: int) -> Seq<char>
    decreases hi - lo,
{
    if hi <= lo {
        Seq::empty()
    } else if nodes[hi - 1].is_text {
        text_range(nodes, lo, hi - 1) + nodes[hi - 1].text@
    } else {
        text_range(nodes, lo, hi - 1)
    }
}

/// The text of the node at `i` and its descendants, in document order.
pub open spec fn text_of(nodes: Seq<DomNode>, i: int) -> Seq<char> {
    text_range(nodes, i, subtree_end(nodes, i))
}

/// The positions as integers.
pub open spec fn ints(v: Seq<usize>) -> Seq<int> {
    v.map_values(|x: usize| x as int)
}

/// Whether a string holds exactly the characters of `b`.
pub(crate) fn str_eq(a: &String, b: &str) -> (r: bool)
    ensures
        r == (a@ == b@),
{
    let b = String::from_str(b);
    *a == b
}

fn carries_class(n: &DomNode, c: &str) -> (r: bool)
    ensures
        r == has_class(*n, c@),
{
    if n.is_text {
        return false;
    }
    let mut k: usize = 0;
    while k < n.classes.len()
        invariant
            !n.is_text,
            k <= n.classes@.len(),
            forall|m: int| 0 <= m < k ==> (#[trigger] n.classes@[m])@ != c@,
        decreases n.classes.len() - k,
    {
        if str_eq(&n.classes[k], c) {
            assert(n.classes@[k as int]@ == c@);
            return true;
        }
        k = k + 1;
    }
    false
}

fn passes(n: &DomNode, s: &Simple) -> (r: bool)
    ensures
        r == simple_matches(*n, *s),
{
    match s {
        Simple::Class(c) => carries_class(n, c),
        Simple::Tag(t) => !n.is_text && str_eq(&n.name, t),
    }
}

impl Document {
    /// Whether the node at `j` is selected by `sel`.
    pub fn is_selected(&self, sel: &Selector, j: usize) -> (r: bool)
        ensures
            r == selects(self.nodes@, *sel, j as int),
    {
        if j >= self.nodes.len() || !passes(&self.nodes[j], &sel.node) {
            return false;
        }
        match &sel.parent {
            None => true,
            Some(ps) => match self.nodes[j].parent {
                Some(p) => p < self.nodes.len() && passes(&self.nodes[p], ps),
                None => false,
            },
        }
    }

    /// The positions in `lo..hi` that `sel` selects, in document order.
    pub fn select_in(&self, sel: &Selector, lo: usize, hi: usize) -> (r: Vec<usize>)
        ensures
            ints(r@) == select_range(self.nodes@, *sel, lo as int, hi as int),
    {
        let mut out: Vec<usize> = Vec::new();
        let mut j: usize = lo;
        assert(ints(out@) =~= Seq::<int>::empty());
        while j < hi
            invariant
                lo <= j,
                j <= hi || hi < lo,
                hi < lo ==> j == lo,
                ints(out@) == select_range(self.nodes@, *sel, lo as int, j as int),
            decreases hi - j,
        {
            if self.is_selected(sel, j) {
                let ghost before = out@;
                out.push(j);
                assert(ints(out@) =~= ints(before).push(j as int));
            }
            j = j + 1;
        }
        if hi < lo {
            assert(select_range(self.nodes@, *sel, lo as int, hi as int) =~= Seq::<int>::empty());
        }
        out
    }

    /// Where the descendants of the node at `i` end.
    pub fn subtree_end(&self, i: usize) -> (r: usize)
        requires
            i < self.nodes@.len(),
        ensures
            r == subtree_end(self.nodes@, i as int),
    {
        let len = self.nodes.len();
        let e = self.nodes[i].end;
        if e <= i {
            i + 1
        } else if e > len {
            len
        } else {
            e
        }
    }

    /// The positions of the descendants of the node at `i` that `sel`
    /// selects, in document order.
    pub fn select_within(&self, sel: &Selector, i: usize) -> (r: Vec<usize>)
        requires
            i < self.nodes@.len(),
        ensures
            ints(r@) == select_within(self.nodes@, *sel, i as int),
    {
        let e = self.subtree_end(i);
        self.select_in(sel, i + 1, e)
    }

    /// The text of the node at `i` and its descendants, in document order.
    pub fn text_of(&self, i: usize) -> (r: String)
        requires
            i < self.nodes@.len(),
        ensures
            r@ == text_of(self.nodes@, i as int),
    {
        let e = self.subtree_end(i);
        let mut s = String::new();
        let mut j: usize = i;
        while j < e
            invariant
                i <= j <= e,
                e == subtree_end(self.nodes@, i as int),
                e <= self.nodes@.len(),
                s@ == text_range(self.nodes@, i as int, j as int),
            decreases e - j,
        {
            if self.nodes[j].is_text {
                s.append(self.nodes[j].text.as_str());
            }
            j = j + 1;
        }
        s
    }
}

} // verus!
