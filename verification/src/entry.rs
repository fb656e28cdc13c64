//! The evaluated configuration tree: what a host application receives
//! after evaluation. Distinct from the syntax tree the way [`Value`] is
//! distinct from an expression: entries hold resolved values.

use vstd::prelude::*;
use crate::span::Span;
use crate::scope::same_option;
use crate::value::{lemma_same_items_intro, same_items, same_value, Value};

verus! {

#[derive(Debug, PartialEq)]
pub enum Entry {
    Leaf(LeafEntry),
    Node(NodeEntry),
    Include(IncludeEntry),
    HostCall(HostCallEntry),
}

/// The span of an entry, whatever its kind.
pub open spec fn entry_span(e: Entry) -> Span {
    match e {
        Entry::Leaf(x) => x.span,
        Entry::Node(x) => x.span,
        Entry::Include(x) => x.span,
        Entry::HostCall(x) => x.span,
    }
}

impl Entry {
    pub fn span(&self) -> (s: Span)
        ensures
            s == entry_span(*self),
    {
        match self {
            Entry::Leaf(e) => e.span,
            Entry::Node(e) => e.span,
            Entry::Include(e) => e.span,
            Entry::HostCall(e) => e.span,
        }
    }
}

#[derive(Debug, PartialEq)]
pub struct LeafEntry {
    pub key: String,
    pub key_span: Span,
    pub value: Value,
    pub span: Span,
}

#[derive(Debug, PartialEq)]
pub struct NodeEntry {
    pub name: String,
    pub name_span: Span,
    pub header: Option<String>,
    pub header_span: Option<Span>,
    pub children: Vec<Entry>,
    pub span: Span,
}

/// An `include` that evaluation followed; `resolved_path` is the file it
/// read, when it read one.
#[derive(Debug, PartialEq)]
pub struct IncludeEntry {
    pub path: String,
    pub resolved_path: Option<String>,
    pub span: Span,
}

/// A call into a host-registered operation that is no value itself (an
/// imperative action), kept as an entry of its own.
#[derive(Debug, PartialEq)]
pub struct HostCallEntry {
    pub name: String,
    pub args: Vec<Value>,
    pub result: Option<Value>,
    pub span: Span,
}

/// Two entries hold the same data: the same names, spans and headers, and
/// values and children that hold the same data.
pub open spec fn same_entry(a: Entry, b: Entry) -> bool
    decreases a, 1int,
{
    match (a, b) {
        (Entry::Leaf(x), Entry::Leaf(y)) => x.key == y.key && x.key_span == y.key_span && same_value(
            x.value,
            y.value,
        ) && x.span == y.span,
        (Entry::Node(x), Entry::Node(y)) => x.name == y.name && x.name_span == y.name_span
            && x.header == y.header && x.header_span == y.header_span && x.children@.len()
            == y.children@.len() && same_entries(x.children@, y.children@, x.children@.len() as int)
            && x.span == y.span,
        (Entry::Include(x), Entry::Include(y)) => x == y,
        (Entry::HostCall(x), Entry::HostCall(y)) => x.name == y.name && x.args@.len() == y.args@.len()
            && same_items(x.args@, y.args@, x.args@.len() as int) && same_option(x.result, y.result)
            && x.span == y.span,
        _ => false,
    }
}

/// The first `n` entries of `x` and `y` hold the same data, pairwise.
pub open spec fn same_entries(x: Seq<Entry>, y: Seq<Entry>, n: int) -> bool
    decreases x, 0int, n,
{
    if n <= 0 || n > x.len() {
        true
    } else {
        same_entries(x, y, n - 1) && same_entry(x[n - 1], y[n - 1])
    }
}

proof fn lemma_same_entries_intro(x: Seq<Entry>, y: Seq<Entry>, n: int)
    requires
        0 <= n <= x.len(),
        forall|k: int| 0 <= k < n ==> #[trigger] same_entry(x[k], y[k]),
    ensures
        same_entries(x, y, n),
    decreases n,
{
    if n > 0 {
        lemma_same_entries_intro(x, y, n - 1);
        assert(same_entry(x[n - 1], y[n - 1]));
    }
}

fn clone_values(vs: &Vec<Value>) -> (r: Vec<Value>)
    ensures
        r@.len() == vs@.len(),
        same_items(vs@, r@, vs@.len() as int),
{
    let mut out: Vec<Value> = Vec::new();
    let mut i: usize = 0;
    while i < vs.len()
        invariant
            i <= vs@.len(),
            out@.len() == i,
            forall|k: int| 0 <= k < i ==> same_value(#[trigger] vs@[k], out@[k]),
        decreases vs@.len() - i,
    {
        out.push(vs[i].clone());
        i += 1;
    }
    proof {
        lemma_same_items_intro(vs@, out@, i as int);
    }
    out
}

fn clone_entries(es: &Vec<Entry>) -> (r: Vec<Entry>)
    ensures
        r@.len() == es@.len(),
        same_entries(es@, r@, es@.len() as int),
    decreases es@, 0nat,
{
    let mut out: Vec<Entry> = Vec::new();
    let mut i: usize = 0;
    while i < es.len()
        invariant
            i <= es@.len(),
            out@.len() == i,
            forall|k: int| 0 <= k < i ==> same_entry(#[trigger] es@[k], out@[k]),
        decreases es@.len() - i,
    {
        out.push(clone_entry(&es[i]));
        i += 1;
    }
    proof {
        lemma_same_entries_intro(es@, out@, i as int);
    }
    out
}

fn clone_node(n: &NodeEntry) -> (r: NodeEntry)
    ensures
        same_entry(Entry::Node(*n), Entry::Node(r)),
    decreases n, 0nat,
{
    NodeEntry {
        name: n.name.clone(),
        name_span: n.name_span,
        header: match &n.header {
            Some(h) => Some(h.clone()),
            None => None,
        },
        header_span: n.header_span,
        children: clone_entries(&n.children),
        span: n.span,
    }
}

fn clone_entry(e: &Entry) -> (r: Entry)
    ensures
        same_entry(*e, r),
    decreases e, 0nat,
{
    match e {
        Entry::Leaf(l) => Entry::Leaf(l.clone()),
        Entry::Node(n) => Entry::Node(clone_node(n)),
        Entry::Include(i) => Entry::Include(i.clone()),
        Entry::HostCall(c) => Entry::HostCall(c.clone()),
    }
}

impl Clone for Entry {
    fn clone(&self) -> (r: Self)
        ensures
            same_entry(*self, r),
    {
        clone_entry(self)
    }
}

impl Clone for NodeEntry {
    fn clone(&self) -> (r: Self)
        ensures
            same_entry(Entry::Node(*self), Entry::Node(r)),
    {
        clone_node(self)
    }
}

impl Clone for LeafEntry {
    fn clone(&self) -> (r: Self)
        ensures
            same_entry(Entry::Leaf(*self), Entry::Leaf(r)),
    {
        LeafEntry { key: self.key.clone(), key_span: self.key_span, value: self.value.clone(), span: self.span }
    }
}

impl Clone for IncludeEntry {
    fn clone(&self) -> (r: Self)
        ensures
            r == *self,
    {
        IncludeEntry {
            path: self.path.clone(),
            resolved_path: match &self.resolved_path {
                Some(p) => Some(p.clone()),
                None => None,
            },
            span: self.span,
        }
    }
}

impl Clone for HostCallEntry {
    fn clone(&self) -> (r: Self)
        ensures
            same_entry(Entry::HostCall(*self), Entry::HostCall(r)),
    {
        HostCallEntry {
            name: self.name.clone(),
            args: clone_values(&self.args),
            result: match &self.result {
                Some(v) => Some(v.clone()),
                None => None,
            },
            span: self.span,
        }
    }
}

/// The value of the last leaf among `es` whose key is `name`.
pub open spec fn last_leaf(es: Seq<Entry>, name: Seq<char>) -> Option<Value>
    decreases es.len(),
{
    if es.len() == 0 {
        None
    } else if es.last() is Leaf && es.last()->Leaf_0.key@ == name {
        Some(es.last()->Leaf_0.value)
    } else {
        last_leaf(es.drop_last(), name)
    }
}

/// The value of the last leaf with key `name` among the entries emitted so
/// far in a node body: a later leaf refers to an earlier sibling by its key.
pub fn last_leaf_value(entries: &Vec<Entry>, name: &String) -> (r: Option<Value>)
    ensures
        same_option(last_leaf(entries@, name@), r),
{
    let mut k = entries.len();
    assert(entries@.take(k as int) =~= entries@);
    while k > 0
        invariant
            k <= entries@.len(),
            last_leaf(entries@, name@) == last_leaf(entries@.take(k as int), name@),
        decreases k,
    {
        let ghost pre = entries@.take(k as int);
        assert(pre.drop_last() =~= entries@.take(k - 1));
        assert(pre.last() == entries@[k - 1]);
        match &entries[k - 1] {
            Entry::Leaf(l) => {
                if l.key == *name {
                    return Some(l.value.clone());
                }
            },
            _ => {},
        }
        k -= 1;
    }
    None
}

} // verus!
