//! The grammar of items, blocks and documents, as spec functions over a
//! token stream and the source text it was lexed from, with the views of
//! the syntax tree that they return.
//!
//! Each `sp_*` function mirrors one step of the parser: it takes the raw
//! cursor position and returns what the parser returns there, with the
//! cursor position after it. Comments lead an item when they stand before
//! it, trail it when one follows it on its own last line, and a blank line
//! before an item is remembered.

use vstd::prelude::*;
use crate::ast::{Comment, HeaderValue, Item, ItemKind, StrLit, Trivia};
use crate::parser::{
    err_v, expr_v, interpolated, lemma_next_sig, next_sig, parts_text, pos_after, sp_call_from,
    sp_expect, sp_expect_name, sp_expr_bp, sp_value, span_join, stream_ok, strlit_v, strs_ok,
    tok_at, ErrV, ExprKindV, ExprV, StrV,
};
use crate::span::Span;
use crate::text::byte_len;
use crate::token::{describe_text, CommentStyle, Token, TokenKind};

verus! {

// ---------------------------------------------------------------------
// Views of the syntax tree
// ---------------------------------------------------------------------

/// A comment with its text as characters.
pub struct CommentV {
    pub text: Seq<char>,
    pub block: bool,
    pub span: Span,
}

pub struct TriviaV {
    pub leading: Seq<CommentV>,
    pub trailing: Option<CommentV>,
    pub blank_line_before: bool,
}

pub enum HeaderV {
    Bare(Seq<char>),
    Quoted(Seq<char>),
}

/// An item with its texts as characters.
pub struct ItemV {
    pub kind: ItemKindV,
    pub span: Span,
    pub trivia: TriviaV,
}

pub enum ItemKindV {
    Leaf { key: Seq<char>, key_span: Span, value: ExprV },
    Node {
        name: Seq<char>,
        name_span: Span,
        header: Option<HeaderV>,
        header_span: Option<Span>,
        body: Seq<ItemV>,
        body_span: Span,
    },
    VarDef { name: Seq<char>, name_span: Span, value: ExprV },
    Include { path: StrV, path_span: Span },
    If {
        cond: ExprV,
        then_body: Seq<ItemV>,
        elifs: Seq<(ExprV, Seq<ItemV>)>,
        else_body: Option<Seq<ItemV>>,
    },
    For {
        var: Seq<char>,
        var_span: Span,
        start: ExprV,
        stop: ExprV,
        step: Option<ExprV>,
        body: Seq<ItemV>,
    },
    While { cond: ExprV, body: Seq<ItemV> },
    Local { name: Seq<char>, name_span: Span, value: ExprV },
    Return { value: Option<ExprV> },
    FnDef { name: Seq<char>, name_span: Span, params: Seq<Seq<char>>, body: Seq<ItemV> },
    Script { raw: Seq<char>, inner_span: Span },
    Call { call: ExprV },
}

/// A document with its texts as characters.
pub struct DocumentV {
    pub items: Seq<ItemV>,
    pub trailing: Seq<CommentV>,
}

pub open spec fn comment_v(c: Comment) -> CommentV {
    CommentV { text: c.text@, block: c.block, span: c.span }
}

pub open spec fn comments_v(s: Seq<Comment>) -> Seq<CommentV> {
    s.map_values(|c: Comment| comment_v(c))
}

pub open spec fn trivia_v(t: Trivia) -> TriviaV {
    TriviaV {
        leading: comments_v(t.leading@),
        trailing: match t.trailing {
            Some(c) => Some(comment_v(c)),
            None => None,
        },
        blank_line_before: t.blank_line_before,
    }
}

pub open spec fn opt_expr_v(e: Option<crate::ast::Expr>) -> Option<ExprV> {
    match e {
        Some(x) => Some(expr_v(x)),
        None => None,
    }
}

pub open spec fn header_v(h: Option<HeaderValue>) -> Option<HeaderV> {
    match h {
        Some(HeaderValue::Bare(w)) => Some(HeaderV::Bare(w@)),
        Some(HeaderValue::Quoted(q)) => Some(HeaderV::Quoted(q@)),
        None => None,
    }
}

pub open spec fn item_v(it: Item) -> ItemV
    decreases it, 3nat,
{
    ItemV { kind: item_kind_v(it.kind), span: it.span, trivia: trivia_v(it.trivia) }
}

pub open spec fn item_kind_v(k: ItemKind) -> ItemKindV
    decreases k, 2nat,
{
    match k {
        ItemKind::Leaf(l) => ItemKindV::Leaf { key: l.key@, key_span: l.key_span, value: expr_v(l.value) },
        ItemKind::Node(n) => ItemKindV::Node {
            name: n.name@,
            name_span: n.name_span,
            header: header_v(n.header),
            header_span: n.header_span,
            body: items_v(n.body@),
            body_span: n.body_span,
        },
        ItemKind::VarDef(v) => ItemKindV::VarDef {
            name: v.name@,
            name_span: v.name_span,
            value: expr_v(v.value),
        },
        ItemKind::Include(i) => ItemKindV::Include { path: strlit_v(i.path), path_span: i.path_span },
        ItemKind::If(s) => ItemKindV::If {
            cond: expr_v(s.cond),
            then_body: items_v(s.then_body@),
            elifs: elifs_v(s.elifs@),
            else_body: match s.else_body {
                Some(b) => Some(items_v(b@)),
                None => None,
            },
        },
        ItemKind::For(f) => ItemKindV::For {
            var: f.var@,
            var_span: f.var_span,
            start: expr_v(f.start),
            stop: expr_v(f.stop),
            step: opt_expr_v(f.step),
            body: items_v(f.body@),
        },
        ItemKind::While(w) => ItemKindV::While { cond: expr_v(w.cond), body: items_v(w.body@) },
        ItemKind::Local(l) => ItemKindV::Local {
            name: l.name@,
            name_span: l.name_span,
            value: expr_v(l.value),
        },
        ItemKind::Return(r) => ItemKindV::Return { value: opt_expr_v(r.value) },
        ItemKind::FnDef(f) => ItemKindV::FnDef {
            name: f.name@,
            name_span: f.name_span,
            params: names_v(f.params@),
            body: items_v(f.body@),
        },
        ItemKind::Script(s) => ItemKindV::Script { raw: s.raw@, inner_span: s.inner_span },
        ItemKind::Call(e) => ItemKindV::Call { call: expr_v(e) },
    }
}

pub open spec fn items_v(s: Seq<Item>) -> Seq<ItemV>
    decreases s, 1nat,
{
    if s.len() == 0 {
        seq![]
    } else {
        items_v(s.drop_last()).push(item_v(s.last()))
    }
}

pub open spec fn elifs_v(s: Seq<(crate::ast::Expr, Vec<Item>)>) -> Seq<(ExprV, Seq<ItemV>)>
    decreases s, 1nat,
{
    if s.len() == 0 {
        seq![]
    } else {
        elifs_v(s.drop_last()).push((expr_v(s.last().0), items_v(s.last().1@)))
    }
}

/// Every bare string in the item (in its expressions, include paths and
/// nested items) splits into parts as [`interpolated`] says.
pub open spec fn item_strs_ok(it: Item) -> bool
    decreases it, 3nat,
{
    kind_strs_ok(it.kind)
}

pub open spec fn kind_strs_ok(k: ItemKind) -> bool
    decreases k, 2nat,
{
    match k {
        ItemKind::Leaf(l) => strs_ok(l.value),
        ItemKind::Node(n) => items_strs_ok(n.body@),
        ItemKind::VarDef(v) => strs_ok(v.value),
        ItemKind::Include(i) => match i.path {
            StrLit::Bare(ps) => interpolated(parts_text(ps@), i.path_span.start as int, ps@),
            StrLit::Quoted(_) => true,
        },
        ItemKind::If(s) => strs_ok(s.cond) && items_strs_ok(s.then_body@) && elifs_strs_ok(s.elifs@)
            && match s.else_body {
            Some(b) => items_strs_ok(b@),
            None => true,
        },
        ItemKind::For(f) => strs_ok(f.start) && strs_ok(f.stop) && match f.step {
            Some(e) => strs_ok(e),
            None => true,
        } && items_strs_ok(f.body@),
        ItemKind::While(w) => strs_ok(w.cond) && items_strs_ok(w.body@),
        ItemKind::Local(l) => strs_ok(l.value),
        ItemKind::Return(r) => match r.value {
            Some(e) => strs_ok(e),
            None => true,
        },
        ItemKind::FnDef(f) => items_strs_ok(f.body@),
        ItemKind::Script(_) => true,
        ItemKind::Call(e) => strs_ok(e),
    }
}

pub open spec fn items_strs_ok(s: Seq<Item>) -> bool
    decreases s, 1nat,
{
    if s.len() == 0 {
        true
    } else {
        items_strs_ok(s.drop_last()) && item_strs_ok(s.last())
    }
}

pub open spec fn elifs_strs_ok(s: Seq<(crate::ast::Expr, Vec<Item>)>) -> bool
    decreases s, 1nat,
{
    if s.len() == 0 {
        true
    } else {
        elifs_strs_ok(s.drop_last()) && strs_ok(s.last().0) && items_strs_ok(s.last().1@)
    }
}

pub proof fn lemma_items_push(s: Seq<Item>, it: Item)
    ensures
        items_v(s.push(it)) == items_v(s).push(item_v(it)),
        items_strs_ok(s.push(it)) == (items_strs_ok(s) && item_strs_ok(it)),
{
    assert(s.push(it).drop_last() =~= s);
}

pub proof fn lemma_elifs_push(s: Seq<(crate::ast::Expr, Vec<Item>)>, x: (crate::ast::Expr, Vec<Item>))
    ensures
        elifs_v(s.push(x)) == elifs_v(s).push((expr_v(x.0), items_v(x.1@))),
        elifs_strs_ok(s.push(x)) == (elifs_strs_ok(s) && strs_ok(x.0) && items_strs_ok(x.1@)),
{
    assert(s.push(x).drop_last() =~= s);
}

pub proof fn lemma_items_len(s: Seq<Item>)
    ensures
        items_v(s).len() == s.len(),
    decreases s.len(),
{
    if s.len() > 0 {
        lemma_items_len(s.drop_last());
    }
}

pub proof fn lemma_items_replace_last(s: Seq<Item>, it: Item)
    requires
        s.len() > 0,
    ensures
        items_v(s.drop_last().push(it)) == items_v(s).update(s.len() - 1, item_v(it)),
        items_v(s).last() == item_v(s.last()),
        items_strs_ok(s.drop_last().push(it)) == (items_strs_ok(s.drop_last()) && item_strs_ok(it)),
        items_strs_ok(s) == (items_strs_ok(s.drop_last()) && item_strs_ok(s.last())),
{
    lemma_items_push(s.drop_last(), it);
    lemma_items_len(s);
    assert(items_v(s.drop_last()).push(item_v(it)) =~= items_v(s).update(s.len() - 1, item_v(it)));
}

// ---------------------------------------------------------------------
// The source text around the tokens
// ---------------------------------------------------------------------

/// The character index at which byte offset `b` of the text falls, if a
/// character starts there (or the text ends there).
pub open spec fn char_at_byte(src: Seq<char>, b: int) -> Option<int> {
    if exists|i: int| 0 <= i <= src.len() && byte_len(src.take(i)) == b {
        Some(choose|i: int| 0 <= i <= src.len() && byte_len(src.take(i)) == b)
    } else {
        None
    }
}

pub proof fn lemma_char_at_byte_some(src: Seq<char>, offs: Seq<u32>, b: int, a: int)
    requires
        crate::text::offsets_of(src, offs),
        0 <= a <= src.len(),
        offs[a] == b,
    ensures
        char_at_byte(src, b) == Some(a),
{
    crate::text::lemma_offsets_injective(src, offs);
    assert(offs[a] == byte_len(src.take(a)));
    let i = choose|i: int| 0 <= i <= src.len() && byte_len(src.take(i)) == b;
    assert(offs[i] == byte_len(src.take(i)));
    if i < a {
        assert(offs[i] < offs[a]);
    } else if a < i {
        assert(offs[a] < offs[i]);
    }
}

pub proof fn lemma_char_at_byte_none(src: Seq<char>, offs: Seq<u32>, b: int)
    requires
        crate::text::offsets_of(src, offs),
        forall|i: int| 0 <= i <= src.len() ==> offs[i] != b,
    ensures
        char_at_byte(src, b) is None,
{
    assert forall|i: int| 0 <= i <= src.len() implies byte_len(src.take(i)) != b by {
        assert(offs[i] == byte_len(src.take(i)));
    }
}

pub open spec fn count_newlines(s: Seq<char>) -> nat
    decreases s.len(),
{
    if s.len() == 0 {
        0
    } else {
        count_newlines(s.drop_last()) + if s.last() == '\n' {
            1nat
        } else {
            0nat
        }
    }
}

/// The line breaks between two byte offsets (none when either is no
/// character boundary, or they are out of order).
pub open spec fn newlines_between(src: Seq<char>, from: int, to: int) -> nat {
    match (char_at_byte(src, from), char_at_byte(src, to)) {
        (Some(a), Some(b)) => if b < a {
            0
        } else {
            count_newlines(src.subrange(a, b))
        },
        _ => 0,
    }
}

/// Whether byte offset `start` is on the line on which `end` is (out of
/// order or out of range offsets count as the same line).
pub open spec fn same_line(src: Seq<char>, end: int, start: int) -> bool {
    if end > start || end > byte_len(src) || start > byte_len(src) {
        true
    } else {
        newlines_between(src, end, start) == 0
    }
}

/// The text between two byte offsets (empty when either is no character
/// boundary, or they are out of order).
pub open spec fn source_slice(src: Seq<char>, from: int, to: int) -> Seq<char> {
    match (char_at_byte(src, from), char_at_byte(src, to)) {
        (Some(a), Some(b)) => if a <= b {
            src.subrange(a, b)
        } else {
            seq![]
        },
        _ => seq![],
    }
}

// ---------------------------------------------------------------------
// Comments and blank lines
// ---------------------------------------------------------------------

/// The comment a comment token holds.
pub open spec fn comment_tok_v(t: Token) -> CommentV {
    match t.kind {
        TokenKind::Comment(text, st) => CommentV {
            text: text@,
            block: st == CommentStyle::Block,
            span: t.span,
        },
        _ => CommentV { text: seq![], block: false, span: t.span },
    }
}

/// The comments from raw position `p` up to the next significant token.
pub open spec fn leading_at(ts: Seq<Token>, p: int) -> Seq<CommentV> {
    Seq::new((next_sig(ts, p) - p) as nat, |k: int| comment_tok_v(ts[p + k]))
}

pub open spec fn with_trailing(it: ItemV, c: CommentV) -> ItemV {
    ItemV {
        kind: it.kind,
        span: it.span,
        trivia: TriviaV {
            leading: it.trivia.leading,
            trailing: Some(c),
            blank_line_before: it.trivia.blank_line_before,
        },
    }
}

pub open spec fn with_blank(it: ItemV, blank: bool) -> ItemV {
    ItemV {
        kind: it.kind,
        span: it.span,
        trivia: TriviaV {
            leading: it.trivia.leading,
            trailing: it.trivia.trailing,
            blank_line_before: blank,
        },
    }
}

/// A comment right at the cursor, on the line on which the last item
/// ends, becomes that item's trailing comment.
pub open spec fn attach_at(ts: Seq<Token>, src: Seq<char>, items: Seq<ItemV>, p: int) -> (
    Seq<ItemV>,
    int,
) {
    if items.len() > 0 && items.last().trivia.trailing is None && 0 <= p < ts.len()
        && ts[p].kind is Comment && same_line(
        src,
        items.last().span.end as int,
        ts[p].span.start as int,
    ) {
        (items.update(items.len() - 1, with_trailing(items.last(), comment_tok_v(ts[p]))), p + 1)
    } else {
        (items, p)
    }
}

/// Whether two or more line breaks separate the previous item (with its
/// trailing comment) from what comes next (its leading comments first, or
/// the token at `p`).
pub open spec fn blank_before(
    ts: Seq<Token>,
    src: Seq<char>,
    items: Seq<ItemV>,
    leading: Seq<CommentV>,
    p: int,
) -> bool {
    if items.len() == 0 {
        false
    } else {
        let prev = items.last();
        let prev_end = match prev.trivia.trailing {
            Some(c) => c.span.end,
            None => prev.span.end,
        };
        let next_start = if leading.len() > 0 {
            leading[0].span.start
        } else {
            tok_at(ts, p).span.start
        };
        if prev_end > next_start {
            false
        } else {
            newlines_between(src, prev_end as int, next_start as int) >= 2
        }
    }
}

// ---------------------------------------------------------------------
// Blocks and items
// ---------------------------------------------------------------------

/// Where a block of items stops.
#[derive(Clone, Copy, PartialEq, Eq, Structural)]
pub enum Stop {
    /// `elseif`, `else` or `end`: the arms of an `if`.
    IfArm,
    /// `end`.
    End,
    /// `}`.
    Brace,
    /// Only the end of the input: the document itself.
    Input,
}

pub open spec fn stops(k: TokenKind, stop: Stop) -> bool {
    match stop {
        Stop::IfArm => k is Elseif || k is Else || k is End,
        Stop::End => k is End,
        Stop::Brace => k is RBrace,
        Stop::Input => k is Eof,
    }
}

/// Items until a token of `stop` (or the end of input), each with its
/// leading and trailing comments, after the items `acc` already read; the
/// comments after the last item come back beside the items.
pub open spec fn sp_block(ts: Seq<Token>, src: Seq<char>, p: int, stop: Stop, acc: Seq<ItemV>) -> (
    Result<(Seq<ItemV>, Seq<CommentV>), ErrV>,
    int,
)
    decreases ts.len() - p, 31nat,
{
    if !(stream_ok(ts) && 0 <= p < ts.len()) {
        (Err(ErrV::Other), p)
    } else {
        let (items, p1) = attach_at(ts, src, acc, p);
        proof {
            lemma_next_sig(ts, p1);
        }
        let leading = leading_at(ts, p1);
        let p2 = next_sig(ts, p1);
        let t = ts[p2];
        if stops(t.kind, stop) || t.kind is Eof {
            (Ok((items, leading)), p2)
        } else {
            let blank = blank_before(ts, src, items, leading, p2);
            match sp_item(ts, src, p2, leading) {
                (Err(e), q) => (Err(e), q),
                (Ok(it), q) => if p < q <= ts.len() {
                    sp_block(ts, src, q, stop, items.push(with_blank(it, blank)))
                } else {
                    (Err(ErrV::Other), q)
                },
            }
        }
    }
}

/// One item at the significant token at `p`, led by `leading`; its span
/// runs from that token to the last one it consumed.
pub open spec fn sp_item(ts: Seq<Token>, src: Seq<char>, p: int, leading: Seq<CommentV>) -> (
    Result<ItemV, ErrV>,
    int,
)
    decreases ts.len() - p, 30nat,
{
    if !(stream_ok(ts) && 0 <= p < ts.len()) {
        (Err(ErrV::Other), p)
    } else {
        let t = tok_at(ts, p);
        match sp_stmt(ts, src, p) {
            (Err(e), q) => (Err(e), q),
            (Ok(kind), q) => {
                let last = ts.len() - 1;
                let before = if q > 0 {
                    q - 1
                } else {
                    0
                };
                let end = ts[if before < last {
                    before
                } else {
                    last
                }].span;
                (
                    Ok(
                        ItemV {
                            kind,
                            span: Span { start: t.span.start, end: span_join(t.span, end).end },
                            trivia: TriviaV { leading, trailing: None, blank_line_before: false },
                        },
                    ),
                    q,
                )
            },
        }
    }
}

/// The statement, node, leaf or call that the token at `p` begins.
pub open spec fn sp_stmt(ts: Seq<Token>, src: Seq<char>, p: int) -> (Result<ItemKindV, ErrV>, int)
    decreases ts.len() - p, 29nat,
{
    if !(stream_ok(ts) && 0 <= p < ts.len()) {
        (Err(ErrV::Other), p)
    } else {
        let t = tok_at(ts, p);
        match t.kind {
            TokenKind::At => sp_vardef(ts, p),
            TokenKind::If => sp_if(ts, src, p),
            TokenKind::For => sp_for(ts, src, p),
            TokenKind::While => sp_while(ts, src, p),
            TokenKind::Local => sp_local(ts, p),
            TokenKind::Return => sp_return(ts, p),
            TokenKind::Fn => sp_fndef(ts, src, p),
            TokenKind::Script => sp_script(ts, src, p),
            TokenKind::Include => sp_include(ts, p),
            TokenKind::BareWord(_) => sp_named(ts, src, p),
            TokenKind::Eof => (
                Err(ErrV::UnexpectedEof { context: "a node, leaf, or statement"@, span: t.span }),
                p,
            ),
            _ => (
                Err(
                    ErrV::UnexpectedToken {
                        expected: "a node, leaf, or statement"@,
                        found: describe_text(t.kind),
                        span: t.span,
                    },
                ),
                p,
            ),
        }
    }
}

// ---------------------------------------------------------------------
// Statements
// ---------------------------------------------------------------------

/// `@name = value`.
pub open spec fn sp_vardef(ts: Seq<Token>, p: int) -> (Result<ItemKindV, ErrV>, int) {
    match sp_expect_name(ts, pos_after(ts, p), "a variable name after `@`"@) {
        (Err(e), q) => (Err(e), q),
        (Ok((name, name_span)), q1) => match sp_expect(ts, q1, TokenKind::Eq, "`=` after the variable name"@) {
            (Err(e), q) => (Err(e), q),
            (Ok(_), q2) => match sp_value(ts, q2) {
                (Err(e), q) => (Err(e), q),
                (Ok(value), q3) => (Ok(ItemKindV::VarDef { name, name_span, value }), q3),
            },
        },
    }
}

/// `local name = value`.
pub open spec fn sp_local(ts: Seq<Token>, p: int) -> (Result<ItemKindV, ErrV>, int) {
    match sp_expect_name(ts, pos_after(ts, p), "a local variable name"@) {
        (Err(e), q) => (Err(e), q),
        (Ok((name, name_span)), q1) => match sp_expect(
            ts,
            q1,
            TokenKind::Eq,
            "`=` after the local variable name"@,
        ) {
            (Err(e), q) => (Err(e), q),
            (Ok(_), q2) => match sp_value(ts, q2) {
                (Err(e), q) => (Err(e), q),
                (Ok(value), q3) => (Ok(ItemKindV::Local { name, name_span, value }), q3),
            },
        },
    }
}

/// `return`, with a value unless a block ends right after it.
pub open spec fn sp_return(ts: Seq<Token>, p: int) -> (Result<ItemKindV, ErrV>, int) {
    let p1 = pos_after(ts, p);
    let k = tok_at(ts, p1).kind;
    if k is End || k is Else || k is Elseif || k is Eof {
        (Ok(ItemKindV::Return { value: None }), p1)
    } else {
        match sp_value(ts, p1) {
            (Err(e), q) => (Err(e), q),
            (Ok(v), q) => (Ok(ItemKindV::Return { value: Some(v) }), q),
        }
    }
}

/// A string value: quoted, or bare (to be interpolated).
pub open spec fn sp_str_value(ts: Seq<Token>, p: int, context: Seq<char>) -> (Result<StrV, ErrV>, int) {
    let t = tok_at(ts, p);
    match t.kind {
        TokenKind::QuotedString(s) => (Ok(StrV::Quoted(s@)), pos_after(ts, p)),
        TokenKind::BareWord(w) => (Ok(StrV::Bare(w@)), pos_after(ts, p)),
        TokenKind::Eof => (Err(ErrV::UnexpectedEof { context, span: t.span }), p),
        _ => (Err(ErrV::UnexpectedToken { expected: context, found: describe_text(t.kind), span: t.span }), p),
    }
}

/// `include path`.
pub open spec fn sp_include(ts: Seq<Token>, p: int) -> (Result<ItemKindV, ErrV>, int) {
    let p1 = pos_after(ts, p);
    match sp_str_value(ts, p1, "an include path"@) {
        (Err(e), q) => (Err(e), q),
        (Ok(path), q) => (Ok(ItemKindV::Include { path, path_span: tok_at(ts, p1).span }), q),
    }
}

/// The raw index of the `}` that closes a block open `depth` levels deep
/// at raw index `i`, counting braces over every token.
pub open spec fn scan_close(ts: Seq<Token>, i: int, depth: nat) -> Option<int>
    decreases ts.len() - i,
{
    if !(0 <= i < ts.len()) {
        None
    } else {
        match ts[i].kind {
            TokenKind::Eof => None,
            TokenKind::LBrace => scan_close(ts, i + 1, depth + 1),
            TokenKind::RBrace => if depth <= 1 {
                Some(i)
            } else {
                scan_close(ts, i + 1, (depth - 1) as nat)
            },
            _ => scan_close(ts, i + 1, depth),
        }
    }
}

/// `script { ... }`: the source text between the braces, taken raw.
pub open spec fn sp_script(ts: Seq<Token>, src: Seq<char>, p: int) -> (Result<ItemKindV, ErrV>, int) {
    let start = tok_at(ts, p).span;
    match sp_expect(ts, pos_after(ts, p), TokenKind::LBrace, "`{` to start the script body"@) {
        (Err(e), q) => (Err(e), q),
        (Ok(open), q1) => sp_script_body(ts, src, q1, start, open.span.end),
    }
}

/// A script's body from raw index `q1`, just after its `{`; `start` is
/// where the `script` keyword stands, and the body's text begins at byte
/// `body_start`, where that `{` ends.
pub open spec fn sp_script_body(ts: Seq<Token>, src: Seq<char>, q1: int, start: Span, body_start: u32) -> (
    Result<ItemKindV, ErrV>,
    int,
) {
    match scan_close(ts, q1, 1) {
        None => (
            Err(ErrV::UnexpectedEof { context: "`}` to close the `script` body"@, span: start }),
            ts.len() - 1,
        ),
        Some(i) => (
            Ok(
                ItemKindV::Script {
                    raw: source_slice(src, body_start as int, ts[i].span.start as int),
                    inner_span: Span { start: body_start, end: ts[i].span.start },
                },
            ),
            i + 1,
        ),
    }
}

/// `then`, which is a bare word, a keyword only here.
pub open spec fn sp_then(ts: Seq<Token>, p: int) -> (Result<(), ErrV>, int) {
    let t = tok_at(ts, p);
    match t.kind {
        TokenKind::BareWord(w) => if w@ == "then"@ {
            (Ok(()), pos_after(ts, p))
        } else {
            (Err(ErrV::UnexpectedToken { expected: "`then`"@, found: describe_text(t.kind), span: t.span }), p)
        },
        TokenKind::Eof => (Err(ErrV::UnexpectedEof { context: "`then`"@, span: t.span }), p),
        _ => (Err(ErrV::UnexpectedToken { expected: "`then`"@, found: describe_text(t.kind), span: t.span }), p),
    }
}

/// `if cond then ... [elseif cond then ...]* [else ...] end`.
pub open spec fn sp_if(ts: Seq<Token>, src: Seq<char>, p: int) -> (Result<ItemKindV, ErrV>, int)
    decreases ts.len() - p, 28nat,
{
    if !(stream_ok(ts) && 0 <= p < ts.len()) {
        (Err(ErrV::Other), p)
    } else {
        match sp_expr_bp(ts, pos_after(ts, p), 0) {
            (Err(e), q) => (Err(e), q),
            (Ok(cond), q1) => match sp_then(ts, q1) {
                (Err(e), q) => (Err(e), q),
                (Ok(_), q2) => if !(p < q2 <= ts.len()) {
                    (Err(ErrV::Other), q2)
                } else {
                    match sp_block(ts, src, q2, Stop::IfArm, seq![]) {
                        (Err(e), q) => (Err(e), q),
                        (Ok((then_body, _)), q3) => if !(p < q3 <= ts.len()) {
                            (Err(ErrV::Other), q3)
                        } else {
                            match sp_elifs(ts, src, q3, seq![]) {
                                (Err(e), q) => (Err(e), q),
                                (Ok(elifs), q4) => if !(p < q4 <= ts.len()) {
                                    (Err(ErrV::Other), q4)
                                } else {
                                    match sp_else(ts, src, p, q4) {
                                        (Err(e), q) => (Err(e), q),
                                        (Ok(else_body), q5) => match sp_expect(ts, q5, TokenKind::End, "`end`"@) {
                                            (Err(e), q) => (Err(e), q),
                                            (Ok(_), q6) => (
                                                Ok(ItemKindV::If { cond, then_body, elifs, else_body }),
                                                q6,
                                            ),
                                        },
                                    }
                                },
                            }
                        },
                    }
                },
            },
        }
    }
}

/// The `elseif` arms, after the arms `acc` already read.
pub open spec fn sp_elifs(ts: Seq<Token>, src: Seq<char>, q: int, acc: Seq<(ExprV, Seq<ItemV>)>) -> (
    Result<Seq<(ExprV, Seq<ItemV>)>, ErrV>,
    int,
)
    decreases ts.len() - q, 27nat,
{
    if !(stream_ok(ts) && 0 <= q < ts.len()) {
        (Ok(acc), q)
    } else if tok_at(ts, q).kind is Elseif {
        match sp_expr_bp(ts, pos_after(ts, q), 0) {
            (Err(e), q1) => (Err(e), q1),
            (Ok(c), q1) => match sp_then(ts, q1) {
                (Err(e), q2) => (Err(e), q2),
                (Ok(_), q2) => if !(q < q2 <= ts.len()) {
                    (Err(ErrV::Other), q2)
                } else {
                    match sp_block(ts, src, q2, Stop::IfArm, seq![]) {
                        (Err(e), q3) => (Err(e), q3),
                        (Ok((body, _)), q3) => if q < q3 <= ts.len() {
                            sp_elifs(ts, src, q3, acc.push((c, body)))
                        } else {
                            (Err(ErrV::Other), q3)
                        },
                    }
                },
            },
        }
    } else {
        (Ok(acc), q)
    }
}

/// The `else` arm, if the token at `q` begins one (`p` is where the `if`
/// began).
pub open spec fn sp_else(ts: Seq<Token>, src: Seq<char>, p: int, q: int) -> (
    Result<Option<Seq<ItemV>>, ErrV>,
    int,
)
    decreases ts.len() - p, 27nat,
{
    if !(stream_ok(ts) && 0 <= p < q < ts.len()) {
        (Err(ErrV::Other), q)
    } else if tok_at(ts, q).kind is Else {
        proof {
            lemma_next_sig(ts, q);
        }
        match sp_block(ts, src, pos_after(ts, q), Stop::End, seq![]) {
            (Err(e), q1) => (Err(e), q1),
            (Ok((body, _)), q1) => (Ok(Some(body)), q1),
        }
    } else {
        (Ok(None), q)
    }
}

/// `for name = start, stop [, step] do ... end`.
pub open spec fn sp_for(ts: Seq<Token>, src: Seq<char>, p: int) -> (Result<ItemKindV, ErrV>, int)
    decreases ts.len() - p, 28nat,
{
    if !(stream_ok(ts) && 0 <= p < ts.len()) {
        (Err(ErrV::Other), p)
    } else {
        match sp_expect_name(ts, pos_after(ts, p), "a loop variable name"@) {
            (Err(e), q) => (Err(e), q),
            (Ok((var, var_span)), q1) => match sp_expect(
                ts,
                q1,
                TokenKind::Eq,
                "`=` after the loop variable"@,
            ) {
                (Err(e), q) => (Err(e), q),
                (Ok(_), q2) => match sp_expr_bp(ts, q2, 0) {
                    (Err(e), q) => (Err(e), q),
                    (Ok(start), q3) => match sp_expect(
                        ts,
                        q3,
                        TokenKind::Comma,
                        "`,` between the loop bounds"@,
                    ) {
                        (Err(e), q) => (Err(e), q),
                        (Ok(_), q4) => match sp_expr_bp(ts, q4, 0) {
                            (Err(e), q) => (Err(e), q),
                            (Ok(stop), q5) => match sp_step(ts, q5) {
                                (Err(e), q) => (Err(e), q),
                                (Ok(step), q6) => match sp_expect(ts, q6, TokenKind::Do, "`do`"@) {
                                    (Err(e), q) => (Err(e), q),
                                    (Ok(_), q7) => if !(p < q7 <= ts.len()) {
                                        (Err(ErrV::Other), q7)
                                    } else {
                                        match sp_block(ts, src, q7, Stop::End, seq![]) {
                                            (Err(e), q) => (Err(e), q),
                                            (Ok((body, _)), q8) => match sp_expect(
                                                ts,
                                                q8,
                                                TokenKind::End,
                                                "`end`"@,
                                            ) {
                                                (Err(e), q) => (Err(e), q),
                                                (Ok(_), q9) => (
                                                    Ok(
                                                        ItemKindV::For {
                                                            var,
                                                            var_span,
                                                            start,
                                                            stop,
                                                            step,
                                                            body,
                                                        },
                                                    ),
                                                    q9,
                                                ),
                                            },
                                        }
                                    },
                                },
                            },
                        },
                    },
                },
            },
        }
    }
}

/// A `for` loop's optional `, step`.
pub open spec fn sp_step(ts: Seq<Token>, q: int) -> (Result<Option<ExprV>, ErrV>, int) {
    if tok_at(ts, q).kind is Comma {
        match sp_expr_bp(ts, pos_after(ts, q), 0) {
            (Err(e), q1) => (Err(e), q1),
            (Ok(s), q1) => (Ok(Some(s)), q1),
        }
    } else {
        (Ok(None), q)
    }
}

/// `while cond do ... end`.
pub open spec fn sp_while(ts: Seq<Token>, src: Seq<char>, p: int) -> (Result<ItemKindV, ErrV>, int)
    decreases ts.len() - p, 28nat,
{
    if !(stream_ok(ts) && 0 <= p < ts.len()) {
        (Err(ErrV::Other), p)
    } else {
        match sp_expr_bp(ts, pos_after(ts, p), 0) {
            (Err(e), q) => (Err(e), q),
            (Ok(cond), q1) => match sp_expect(ts, q1, TokenKind::Do, "`do`"@) {
                (Err(e), q) => (Err(e), q),
                (Ok(_), q2) => if !(p < q2 <= ts.len()) {
                    (Err(ErrV::Other), q2)
                } else {
                    match sp_block(ts, src, q2, Stop::End, seq![]) {
                        (Err(e), q) => (Err(e), q),
                        (Ok((body, _)), q3) => match sp_expect(ts, q3, TokenKind::End, "`end`"@) {
                            (Err(e), q) => (Err(e), q),
                            (Ok(_), q4) => (Ok(ItemKindV::While { cond, body }), q4),
                        },
                    }
                },
            },
        }
    }
}

/// A function's parameter names after the names `acc` already read.
pub open spec fn sp_params(ts: Seq<Token>, q: int, acc: Seq<Seq<char>>) -> (
    Result<Seq<Seq<char>>, ErrV>,
    int,
)
    decreases ts.len() - q,
{
    if !(stream_ok(ts) && 0 <= q < ts.len()) {
        (Err(ErrV::Other), q)
    } else {
        match sp_expect_name(ts, q, "a parameter name"@) {
            (Err(e), q1) => (Err(e), q1),
            (Ok((name, _)), q1) => if 0 <= q1 < ts.len() && tok_at(ts, q1).kind is Comma {
                let q2 = pos_after(ts, q1);
                if q < q2 <= ts.len() {
                    sp_params(ts, q2, acc.push(name))
                } else {
                    (Err(ErrV::Other), q2)
                }
            } else {
                (Ok(acc.push(name)), q1)
            },
        }
    }
}

/// `fn name(params) { ... }`.
pub open spec fn sp_fndef(ts: Seq<Token>, src: Seq<char>, p: int) -> (Result<ItemKindV, ErrV>, int)
    decreases ts.len() - p, 28nat,
{
    if !(stream_ok(ts) && 0 <= p < ts.len()) {
        (Err(ErrV::Other), p)
    } else {
        match sp_expect_name(ts, pos_after(ts, p), "a function name"@) {
            (Err(e), q) => (Err(e), q),
            (Ok((name, name_span)), q1) => match sp_expect(
                ts,
                q1,
                TokenKind::LParen,
                "`(` after the function name"@,
            ) {
                (Err(e), q) => (Err(e), q),
                (Ok(_), q2) => match (if tok_at(ts, q2).kind is RParen {
                    (Ok(seq![]), q2)
                } else {
                    sp_params(ts, q2, seq![])
                }) {
                    (Err(e), q) => (Err(e), q),
                    (Ok(params), q3) => match sp_expect(
                        ts,
                        q3,
                        TokenKind::RParen,
                        "`)` after the parameter list"@,
                    ) {
                        (Err(e), q) => (Err(e), q),
                        (Ok(_), q4) => match sp_expect(
                            ts,
                            q4,
                            TokenKind::LBrace,
                            "`{` to start the function body"@,
                        ) {
                            (Err(e), q) => (Err(e), q),
                            (Ok(_), q5) => if !(p < q5 <= ts.len()) {
                                (Err(ErrV::Other), q5)
                            } else {
                                match sp_block(ts, src, q5, Stop::Brace, seq![]) {
                                    (Err(e), q) => (Err(e), q),
                                    (Ok((body, _)), q6) => match sp_expect(
                                        ts,
                                        q6,
                                        TokenKind::RBrace,
                                        "`}` to close the function body"@,
                                    ) {
                                        (Err(e), q) => (Err(e), q),
                                        (Ok(_), q7) => (
                                            Ok(ItemKindV::FnDef { name, name_span, params, body }),
                                            q7,
                                        ),
                                    },
                                }
                            },
                        },
                    },
                },
            },
        }
    }
}

/// A node's body and its closing `}`, from raw position `q1` just after its `{`.
pub open spec fn sp_node_body(
    ts: Seq<Token>,
    src: Seq<char>,
    q1: int,
    name: Seq<char>,
    name_span: Span,
    header: Option<HeaderV>,
    header_span: Option<Span>,
) -> (Result<ItemKindV, ErrV>, int)
    decreases ts.len() - q1, 32nat,
{
    if !(stream_ok(ts) && 0 <= q1 < ts.len()) {
        (Err(ErrV::Other), q1)
    } else {
        match sp_block(ts, src, q1, Stop::Brace, seq![]) {
            (Err(e), q) => (Err(e), q),
            (Ok((body, _)), q2) => match sp_expect(ts, q2, TokenKind::RBrace, "`}` to close the node body"@) {
                (Err(e), q) => (Err(e), q),
                (Ok(close), q3) => (
                    Ok(
                        ItemKindV::Node {
                            name,
                            name_span,
                            header,
                            header_span,
                            body,
                            body_span: span_join(name_span, close.span),
                        },
                    ),
                    q3,
                ),
            },
        }
    }
}

/// A bare word begins a node (`name { }` or `name header { }`), a leaf
/// (`name = value`), or a call statement (`name(args)`).
pub open spec fn sp_named(ts: Seq<Token>, src: Seq<char>, p: int) -> (Result<ItemKindV, ErrV>, int)
    decreases ts.len() - p, 28nat,
{
    if !(stream_ok(ts) && 0 <= p < ts.len()) {
        (Err(ErrV::Other), p)
    } else {
        match sp_expect_name(ts, p, "a node or leaf name"@) {
            (Err(e), q) => (Err(e), q),
            (Ok((name, name_span)), q) => {
                let t = tok_at(ts, q);
                let t2 = ts[next_sig(ts, next_sig(ts, q) + 1)];
                if (t.kind is BareWord || t.kind is QuotedString) && t2.kind is LBrace {
                    let header = match t.kind {
                        TokenKind::BareWord(w) => HeaderV::Bare(w@),
                        TokenKind::QuotedString(s) => HeaderV::Quoted(s@),
                        _ => HeaderV::Bare(seq![]),
                    };
                    let q1 = pos_after(ts, pos_after(ts, q));
                    if p < q1 <= ts.len() {
                        sp_node_body(ts, src, q1, name, name_span, Some(header), Some(t.span))
                    } else {
                        (Err(ErrV::Other), q1)
                    }
                } else {
                    match t.kind {
                        TokenKind::LBrace => if p < pos_after(ts, q) <= ts.len() {
                            sp_node_body(ts, src, pos_after(ts, q), name, name_span, None, None)
                        } else {
                            (Err(ErrV::Other), pos_after(ts, q))
                        },
                        TokenKind::Eq => match sp_value(ts, pos_after(ts, q)) {
                            (Err(e), q1) => (Err(e), q1),
                            (Ok(value), q1) => (Ok(ItemKindV::Leaf { key: name, key_span: name_span, value }), q1),
                        },
                        TokenKind::LParen => match sp_call_from(
                            ts,
                            q,
                            ExprV { kind: ExprKindV::Ident(name), span: name_span },
                        ) {
                            (Err(e), q1) => (Err(e), q1),
                            (Ok(call), q1) => (Ok(ItemKindV::Call { call }), q1),
                        },
                        TokenKind::Eof => (
                            Err(
                                ErrV::UnexpectedEof {
                                    context: "`{` (a node), `=` (a leaf), or `(` (a call) after this name"@,
                                    span: t.span,
                                },
                            ),
                            q,
                        ),
                        _ => (
                            Err(
                                ErrV::UnexpectedToken {
                                    expected: "`{` (a node), `=` (a leaf), or `(` (a call)"@,
                                    found: describe_text(t.kind),
                                    span: t.span,
                                },
                            ),
                            q,
                        ),
                    }
                }
            },
        }
    }
}

// ---------------------------------------------------------------------
// Documents
// ---------------------------------------------------------------------

/// What parsing the token stream `ts`, lexed from `src`, gives: the items
/// up to the end of input and the comments after the last one, or the
/// first syntax error.
pub open spec fn sp_document(ts: Seq<Token>, src: Seq<char>) -> Result<DocumentV, ErrV> {
    match sp_block(ts, src, 0, Stop::Input, seq![]) {
        (Ok((items, trailing)), _) => Ok(DocumentV { items, trailing }),
        (Err(e), _) => Err(e),
    }
}

pub open spec fn block_res_v(r: Result<(Vec<Item>, Vec<Comment>), crate::diagnostic::SyntaxError>) -> (
    Result<(Seq<ItemV>, Seq<CommentV>), ErrV>
) {
    match r {
        Ok((items, cs)) => Ok((items_v(items@), comments_v(cs@))),
        Err(e) => Err(err_v(e)),
    }
}

pub open spec fn item_res_v(r: Result<Item, crate::diagnostic::SyntaxError>) -> Result<ItemV, ErrV> {
    match r {
        Ok(it) => Ok(item_v(it)),
        Err(e) => Err(err_v(e)),
    }
}

pub open spec fn kind_res_v(r: Result<ItemKind, crate::diagnostic::SyntaxError>) -> Result<ItemKindV, ErrV> {
    match r {
        Ok(k) => Ok(item_kind_v(k)),
        Err(e) => Err(err_v(e)),
    }
}

pub open spec fn unit_res_v(r: Result<(), crate::diagnostic::SyntaxError>) -> Result<(), ErrV> {
    match r {
        Ok(()) => Ok(()),
        Err(e) => Err(err_v(e)),
    }
}

pub open spec fn str_res_v(r: Result<StrLit, crate::diagnostic::SyntaxError>) -> Result<StrV, ErrV> {
    match r {
        Ok(l) => Ok(strlit_v(l)),
        Err(e) => Err(err_v(e)),
    }
}

pub open spec fn elifs_res_v(r: Result<Vec<(crate::ast::Expr, Vec<Item>)>, crate::diagnostic::SyntaxError>) -> (
    Result<Seq<(ExprV, Seq<ItemV>)>, ErrV>
) {
    match r {
        Ok(v) => Ok(elifs_v(v@)),
        Err(e) => Err(err_v(e)),
    }
}

pub open spec fn names_res_v(r: Result<Vec<String>, crate::diagnostic::SyntaxError>) -> Result<
    Seq<Seq<char>>,
    ErrV,
> {
    match r {
        Ok(v) => Ok(names_v(v@)),
        Err(e) => Err(err_v(e)),
    }
}

pub open spec fn names_v(s: Seq<String>) -> Seq<Seq<char>> {
    s.map_values(|w: String| w@)
}

pub open spec fn document_v(d: crate::ast::Document) -> DocumentV {
    DocumentV { items: items_v(d.items@), trailing: comments_v(d.trailing@) }
}

pub open spec fn document_res_v(r: Result<crate::ast::Document, crate::diagnostic::SyntaxError>) -> Result<
    DocumentV,
    ErrV,
> {
    match r {
        Ok(d) => Ok(document_v(d)),
        Err(e) => Err(err_v(e)),
    }
}

} // verus!
