//! An evaluated entry tree as an indented, human-readable outline: the
//! shape a user of an embedding application recognises as "the config"
//! (the `Debug` form shows every field instead).

use vstd::prelude::*;
use crate::entry::Entry;
use crate::text::{push_char, push_str};
use crate::value::{value_text, Value};

verus! {

/// What `{:?}` writes for a string: the text between double quotes, with
/// quotes, backslashes and unprintable characters escaped.
pub uninterp spec fn debug_str_text(s: Seq<char>) -> Seq<char>;

/// Writes a string as `{:?}` does (`<str as Debug>::fmt`): the contract
/// claims only that the result is a function of the text.
#[verifier::external_body]
fn debug_quoted(s: &str) -> (r: String)
    ensures
        r@ == debug_str_text(s@),
{
    format!("{s:?}")
}

/// How a value shows in the outline: a string quoted, so that it reads
/// apart from a boolean, a number or a name; anything else as it prints.
pub open spec fn value_outline(v: Value) -> Seq<char> {
    match v {
        Value::Str(s) => debug_str_text(s@),
        _ => value_text(v),
    }
}

/// Entries as outline lines, at indentation `pad`.
pub open spec fn outline_text(es: Seq<Entry>, pad: Seq<char>) -> Seq<char>
    decreases es,
{
    if es.len() == 0 {
        seq![]
    } else {
        outline_text(es.drop_last(), pad) + entry_outline(es.last(), pad)
    }
}

/// One entry as outline lines, at indentation `pad`; a node's children
/// come two spaces deeper.
pub open spec fn entry_outline(e: Entry, pad: Seq<char>) -> Seq<char>
    decreases e,
{
    match e {
        Entry::Leaf(l) => pad + l.key@ + " = "@ + value_outline(l.value) + seq!['\n'],
        Entry::Node(n) => pad + n.name@ + (match n.header {
            Some(h) => seq![' '] + h@,
            None => seq![],
        }) + " {"@ + seq!['\n'] + outline_text(n.children@, pad + "  "@) + pad + seq!['}', '\n'],
        Entry::Include(i) => pad + "include "@ + debug_str_text(i.path@) + (match i.resolved_path {
            Some(r) => " -> "@ + r@,
            None => seq![],
        }) + seq!['\n'],
        Entry::HostCall(c) => pad + c.name@ + "()"@ + seq!['\n'],
    }
}

fn push_value(out: &mut String, value: &Value)
    ensures
        final(out)@ == old(out)@ + value_outline(*value),
{
    match value {
        Value::Str(s) => {
            let q = debug_quoted(s.as_str());
            push_str(out, q.as_str());
        },
        _ => {
            let t = value.to_text();
            push_str(out, t.as_str());
        },
    }
}

fn push_entries(out: &mut String, entries: &[Entry], pad: &String)
    ensures
        final(out)@ == old(out)@ + outline_text(entries@, pad@),
    decreases entries@, 0nat,
{
    let ghost start = out@;
    let mut i: usize = 0;
    while i < entries.len()
        invariant
            i <= entries@.len(),
            out@ == start + outline_text(entries@.take(i as int), pad@),
        decreases entries@.len() - i,
    {
        push_entry(out, &entries[i], pad);
        proof {
            assert(entries@.take(i + 1).drop_last() =~= entries@.take(i as int));
        }
        i += 1;
    }
    assert(entries@.take(entries@.len() as int) =~= entries@);
}

fn push_entry(out: &mut String, entry: &Entry, pad: &String)
    ensures
        final(out)@ == old(out)@ + entry_outline(*entry, pad@),
    decreases entry, 0nat,
{
    let ghost start = out@;
    push_str(out, pad.as_str());
    match entry {
        Entry::Leaf(leaf) => {
            push_str(out, leaf.key.as_str());
            push_str(out, " = ");
            push_value(out, &leaf.value);
            push_char(out, '\n');
        },
        Entry::Node(node) => {
            push_str(out, node.name.as_str());
            match &node.header {
                Some(header) => {
                    push_char(out, ' ');
                    push_str(out, header.as_str());
                },
                None => {},
            }
            push_str(out, " {");
            push_char(out, '\n');
            let mut inner = pad.clone();
            push_str(&mut inner, "  ");
            proof {
                assert(decreases_to!(*entry => node.children@));
            }
            push_entries(out, node.children.as_slice(), &inner);
            push_str(out, pad.as_str());
            push_char(out, '}');
            push_char(out, '\n');
        },
        Entry::Include(inc) => {
            push_str(out, "include ");
            let q = debug_quoted(inc.path.as_str());
            push_str(out, q.as_str());
            match &inc.resolved_path {
                Some(resolved) => {
                    push_str(out, " -> ");
                    push_str(out, resolved.as_str());
                },
                None => {},
            }
            push_char(out, '\n');
        },
        Entry::HostCall(call) => {
            push_str(out, call.name.as_str());
            push_str(out, "()");
            push_char(out, '\n');
        },
    }
    assert(out@ =~= start + entry_outline(*entry, pad@));
}

/// The outline of an entry tree, one line per leaf, include and host call,
/// and an opening and a closing line per node.
pub fn outline(entries: &[Entry]) -> (r: String)
    ensures
        r@ == outline_text(entries@, seq![]),
{
    let mut out = String::new();
    let top = String::new();
    push_entries(&mut out, entries, &top);
    assert(out@ =~= outline_text(entries@, seq![]));
    out
}

} // verus!
