//! Recursive-descent parser: tokens to an [`ast::Document`].
//!
//! A leaf's value is "a single bare token" (a literal, possibly with `$`
//! interpolation) when the token after it does not continue an expression,
//! and "a real expression" (where `$name` and `@name` are errors)
//! otherwise.

use vstd::prelude::*;
use crate::ast::{
    BinOp, Comment, Document, Expr, ExprKind, FnDef, ForStmt, HeaderValue, IfStmt, IncludeStmt, Item,
    ItemKind, LeafDecl, LocalStmt, NodeDecl, ReturnStmt, ScriptBlock, StrLit, StrPart, Trivia, UnOp,
    VarDef, WhileStmt,
};
use crate::diagnostic::SyntaxError;
use crate::number::{after_dot, before_dot, find_char};
use crate::span::Span;
use crate::lexer::{lexed_as, token_at, tokenized};
use crate::text::{
    byte_len, byte_offsets, chars_of, is_alnum, is_ident_char, is_interp_char, len_utf8,
    lemma_byte_len_mono, lemma_byte_len_split, lemma_byte_len_take_step, push_char, string_of_range,
};
use crate::token::{continues, describe_text, kind_tag, tag_of, CommentStyle, Token, TokenKind};
use crate::grammar::{
    attach_at, block_res_v, comment_tok_v, comment_v, comments_v, count_newlines, document_res_v,
    elifs_strs_ok, elifs_v, header_v, item_res_v, item_strs_ok, item_v, items_strs_ok, items_v,
    kind_res_v, kind_strs_ok, leading_at, lemma_char_at_byte_none, lemma_char_at_byte_some,
    lemma_elifs_push, lemma_items_len, lemma_items_push, lemma_items_replace_last, names_v,
    scan_close, sp_block, sp_document, sp_elifs, sp_for, sp_fndef, sp_if, sp_include, sp_item,
    sp_local, sp_named, sp_node_body, sp_params, sp_return, sp_script, sp_then, sp_vardef, sp_while,
    stops, str_res_v, unit_res_v, Stop, elifs_res_v, names_res_v, sp_str_value, sp_script_body,
};

verus! {

// ---------------------------------------------------------------------
// Bare strings and `$name` interpolation
// ---------------------------------------------------------------------

/// The source text of one part of a bare string.
pub open spec fn part_text(p: StrPart) -> Seq<char> {
    match p {
        StrPart::Lit(s) => s@,
        StrPart::Interp(n, _) => seq!['$'] + n@,
    }
}

/// The source text of a sequence of parts.
pub open spec fn parts_text(ps: Seq<StrPart>) -> Seq<char>
    decreases ps.len(),
{
    if ps.len() == 0 {
        seq![]
    } else {
        parts_text(ps.drop_last()) + part_text(ps.last())
    }
}

pub open spec fn all_ident(s: Seq<char>) -> bool {
    forall|k: int| 0 <= k < s.len() ==> is_ident_char(#[trigger] s[k])
}

/// A `$` in literal text `l` is never followed by an identifier character.
pub open spec fn dollars_inert(l: Seq<char>) -> bool {
    forall|j: int|
        #![trigger l[j]]
        0 <= j && j + 1 < l.len() && l[j] == '$' ==> !is_ident_char(l[j + 1])
}

/// Part `k` of `parts` is well formed; `next` is the text that follows it
/// (the next part's text, or what is still to come).
pub open spec fn part_ok(base: int, parts: Seq<StrPart>, k: int, next: Seq<char>) -> bool {
    match parts[k] {
        StrPart::Interp(n, sp) => {
            &&& n@.len() > 0
            &&& all_ident(n@)
            &&& !(next.len() > 0 && is_ident_char(next[0]))
            &&& sp.start == base + byte_len(parts_text(parts.take(k)) + seq!['$'])
            &&& sp.end == sp.start + byte_len(n@)
        },
        StrPart::Lit(l) => {
            &&& dollars_inert(l@)
            &&& (l@.len() > 0 && l@.last() == '$' && next.len() > 0) ==> next[0] == '$'
        },
    }
}

/// The text of the part after `k`, if any.
pub open spec fn next_text(parts: Seq<StrPart>, k: int) -> Seq<char> {
    if k + 1 < parts.len() {
        part_text(parts[k + 1])
    } else {
        seq![]
    }
}

/// `parts` is how the bare word `text`, whose first byte is at `base`,
/// splits into literal text and `$name` interpolations: together the parts
/// spell `text`; each interpolation names a non-empty, maximal run of
/// identifier characters and carries the byte span of that name; every
/// `$` left in literal text is not followed by an identifier character;
/// and literal text runs whole between interpolations, never split into
/// two literal parts side by side nor left as an empty part beside one
/// (only an empty word is a single empty literal part).
pub open spec fn interpolated(text: Seq<char>, base: int, parts: Seq<StrPart>) -> bool {
    &&& parts.len() > 0
    &&& parts_text(parts) == text
    &&& forall|k: int|
        #![trigger parts[k]]
        0 <= k < parts.len() ==> part_ok(base, parts, k, next_text(parts, k))
    &&& forall|k: int|
        #![trigger parts[k]]
        0 <= k < parts.len() - 1 && parts[k] is Lit ==> parts[k + 1] is Interp
    &&& forall|k: int|
        #![trigger parts[k]]
        0 <= k < parts.len() && parts[k] is Lit && part_text(parts[k]).len() == 0 ==> parts.len() == 1
}

proof fn lemma_part_ok_push(base: int, parts: Seq<StrPart>, p: StrPart, k: int, next: Seq<char>)
    requires
        0 <= k < parts.len(),
    ensures
        part_ok(base, parts, k, next) == part_ok(base, parts.push(p), k, next),
{
    assert(parts.push(p).take(k) =~= parts.take(k));
    assert(parts.push(p)[k] == parts[k]);
}

proof fn lemma_parts_text_push(ps: Seq<StrPart>, p: StrPart)
    ensures
        parts_text(ps.push(p)) == parts_text(ps) + part_text(p),
{
    assert(ps.push(p).drop_last() =~= ps);
}

/// What follows part `k` while `lit` is still being gathered.
pub open spec fn next_or(parts: Seq<StrPart>, k: int, lit: Seq<char>) -> Seq<char> {
    if k + 1 < parts.len() {
        part_text(parts[k + 1])
    } else {
        lit
    }
}

/// The parts gathered so far are well formed, given that `lit` follows
/// them, and only interpolations end them.
#[verifier::opaque]
spec fn parts_so_far(base: int, parts: Seq<StrPart>, lit: Seq<char>) -> bool {
    &&& forall|k: int|
        #![trigger parts[k]]
        0 <= k < parts.len() ==> part_ok(base, parts, k, next_or(parts, k, lit))
    &&& forall|k: int|
        #![trigger parts[k]]
        0 <= k < parts.len() ==> (parts[k] is Lit ==> k + 1 < parts.len() && parts[k + 1] is Interp
            && part_text(parts[k]).len() > 0)
}

proof fn lemma_dollars_push(lit: Seq<char>, c: char)
    requires
        dollars_inert(lit),
        lit.len() > 0 && lit.last() == '$' ==> !is_ident_char(c),
    ensures
        dollars_inert(lit.push(c)),
{
    let l2 = lit.push(c);
    assert forall|j: int|
        #![trigger l2[j]]
        0 <= j && j + 1 < l2.len() && l2[j] == '$' implies !is_ident_char(l2[j + 1]) by {
        if j + 1 < lit.len() {
            assert(lit[j] == l2[j]);
            assert(lit[j + 1] == l2[j + 1]);
        }
    }
}

proof fn lemma_extend_lit(base: int, parts: Seq<StrPart>, lit: Seq<char>, c: char)
    requires
        parts_so_far(base, parts, lit),
        parts.len() > 0 && lit.len() == 0 ==> !is_ident_char(c),
    ensures
        parts_so_far(base, parts, lit.push(c)),
{
    reveal(parts_so_far);
    assert forall|k: int|
        #![trigger parts[k]]
        0 <= k < parts.len() implies part_ok(base, parts, k, next_or(parts, k, lit.push(c))) by {
        assert(part_ok(base, parts, k, next_or(parts, k, lit)));
        if k + 1 == parts.len() && lit.len() > 0 {
            assert(lit.push(c)[0] == lit[0]);
        }
    }
}

proof fn lemma_start_interp(
    base: int,
    parts0: Seq<StrPart>,
    lit0: Seq<char>,
    parts1: Seq<StrPart>,
    ip: StrPart,
    c: char,
)
    requires
        parts_so_far(base, parts0, lit0),
        dollars_inert(lit0),
        parts0.len() > 0 && lit0.len() == 0 ==> !is_ident_char(c),
        c == '$',
        lit0.len() > 0 ==> parts1.len() == parts0.len() + 1 && parts1 == parts0.push(
            parts1[parts0.len() as int],
        ) && part_text(parts1[parts0.len() as int]) == lit0 && parts1[parts0.len() as int] is Lit,
        lit0.len() == 0 ==> parts1 == parts0,
        ip matches StrPart::Interp(n, sp) && n@.len() > 0 && all_ident(n@) && sp.start == base
            + byte_len(parts_text(parts1) + seq!['$']) && sp.end == sp.start + byte_len(n@),
    ensures
        parts_so_far(base, parts1.push(ip), Seq::empty()),
{
    reveal(parts_so_far);
    let parts = parts1.push(ip);
    assert(part_text(ip)[0] == '$');
    assert forall|k: int|
        #![trigger parts[k]]
        0 <= k < parts.len() implies part_ok(base, parts, k, next_or(parts, k, Seq::empty())) by {
        if k < parts0.len() {
            let nx0 = next_or(parts0, k, lit0);
            assert(part_ok(base, parts0, k, nx0));
            if lit0.len() > 0 {
                lemma_part_ok_push(base, parts0, parts1[parts0.len() as int], k, nx0);
                lemma_part_ok_push(base, parts1, ip, k, nx0);
                assert(parts[k + 1] == parts1[k + 1]);
            } else {
                lemma_part_ok_push(base, parts0, ip, k, nx0);
                if k + 1 < parts0.len() {
                    assert(parts[k + 1] == parts0[k + 1]);
                }
            }
        } else if k < parts1.len() {
            assert(parts[k] == parts1[k]);
            assert(parts[k + 1] == ip);
        } else {
            assert(parts[k] == ip);
            assert(parts.take(k) =~= parts1);
        }
    }
    assert forall|k: int| #![trigger parts[k]] 0 <= k < parts.len() && parts[k] is Lit implies k + 1
        < parts.len() && parts[k + 1] is Interp && part_text(parts[k]).len() > 0 by {
        if k < parts0.len() {
            assert(parts[k] == parts0[k]);
            if k + 1 < parts0.len() {
                assert(parts[k + 1] == parts0[k + 1]);
            } else if lit0.len() > 0 {
                assert(parts[k + 1] == parts1[k + 1]);
            } else {
                assert(parts[k + 1] == ip);
            }
        } else if k < parts1.len() {
            assert(parts[k + 1] == ip);
        }
    }
}

proof fn lemma_finish(base: int, parts0: Seq<StrPart>, lit: Seq<char>, parts: Seq<StrPart>)
    requires
        parts_so_far(base, parts0, lit),
        dollars_inert(lit),
        lit.len() > 0 || parts0.len() == 0 ==> parts == parts0.push(parts[parts0.len() as int])
            && parts[parts0.len() as int] is Lit && part_text(parts[parts0.len() as int]) == lit,
        !(lit.len() > 0 || parts0.len() == 0) ==> parts == parts0,
    ensures
        forall|k: int|
            #![trigger parts[k]]
            0 <= k < parts.len() ==> part_ok(base, parts, k, next_text(parts, k)),
        forall|k: int|
            #![trigger parts[k]]
            0 <= k < parts.len() - 1 && parts[k] is Lit ==> parts[k + 1] is Interp,
        forall|k: int|
            #![trigger parts[k]]
            0 <= k < parts.len() && parts[k] is Lit && part_text(parts[k]).len() == 0 ==> parts.len() == 1,
{
    reveal(parts_so_far);
    assert forall|k: int|
        #![trigger parts[k]]
        0 <= k < parts.len() - 1 && parts[k] is Lit implies parts[k + 1] is Interp by {
        if lit.len() > 0 || parts0.len() == 0 {
            assert(parts[k] == parts0[k]);
            assert(parts0[k] is Lit ==> parts0[k + 1] is Interp);
            assert(parts[k + 1] == parts0[k + 1]);
        }
    }
    assert forall|k: int|
        #![trigger parts[k]]
        0 <= k < parts.len() && parts[k] is Lit && part_text(parts[k]).len() == 0 implies parts.len() == 1 by {
        if k < parts0.len() {
            assert(parts[k] == parts0[k]);
        }
    }
    assert forall|k: int|
        #![trigger parts[k]]
        0 <= k < parts.len() implies part_ok(base, parts, k, next_text(parts, k)) by {
        if lit.len() > 0 || parts0.len() == 0 {
            if k < parts0.len() {
                let nx0 = next_or(parts0, k, lit);
                assert(part_ok(base, parts0, k, nx0));
                lemma_part_ok_push(base, parts0, parts[parts0.len() as int], k, nx0);
                if k + 1 < parts0.len() {
                    assert(parts[k + 1] == parts0[k + 1]);
                }
            }
        } else {
            assert(part_ok(base, parts, k, next_or(parts, k, lit)));
        }
    }
}

/// Splits a bare word into literal and `$name` interpolation parts. Each
/// `$` starts an identifier run (alphanumeric or underscore); anything else
/// is literal text, copied through unchanged.
#[verifier::spinoff_prover]
#[verifier::rlimit(60)]
fn split_interpolated(text: &[char], base_span: Span) -> (r: StrLit)
    requires
        base_span.start + byte_len(text@) <= u32::MAX,
    ensures
        r matches StrLit::Bare(parts) && interpolated(text@, base_span.start as int, parts@),
{
    let n = text.len();
    let base = base_span.start;
    let mut parts: Vec<StrPart> = Vec::new();
    let mut lit = String::new();
    let mut lit_len: usize = 0;
    let mut i: usize = 0;
    let mut b: u32 = 0;
    proof {
        assert(text@.take(0) =~= Seq::<char>::empty());
        crate::text::lemma_byte_len_mono(text@, 0, n as int);
        assert(text@.take(n as int) =~= text@);
        reveal(parts_so_far);
    }
    while i < n
        invariant
            i <= n == text@.len(),
            base + byte_len(text@) <= u32::MAX,
            b == byte_len(text@.take(i as int)),
            lit_len == lit@.len(),
            parts_text(parts@) + lit@ == text@.take(i as int),
            parts_so_far(base as int, parts@, lit@),
            dollars_inert(lit@),
            lit@.len() > 0 && lit@.last() == '$' ==> (i == n || !is_ident_char(text@[i as int])),
            parts@.len() > 0 && lit@.len() == 0 ==> (i == n || !is_ident_char(text@[i as int])),
        decreases n - i,
    {
        let c = text[i];
        proof {
            lemma_byte_len_take_step(text@, i as int);
            crate::text::lemma_byte_len_mono(text@, i + 1, n as int);
            assert(text@.take(n as int) =~= text@);
            assert(text@.take(i + 1) =~= text@.take(i as int).push(c));
        }
        if c == '$' {
            // The identifier run after the `$`.
            let mut e = i + 1;
            let mut eb = b + 1;
            while e < n && is_interp_char(text[e])
                invariant
                    i < e <= n == text@.len(),
                    base + byte_len(text@) <= u32::MAX,
                    eb == byte_len(text@.take(e as int)),
                    forall|k: int| i < k < e ==> is_ident_char(#[trigger] text@[k]),
                decreases n - e,
            {
                proof {
                    lemma_byte_len_take_step(text@, e as int);
                    crate::text::lemma_byte_len_mono(text@, e + 1, n as int);
                    assert(text@.take(n as int) =~= text@);
                }
                eb = eb + len_utf8(text[e]);
                e += 1;
            }
            if e == i + 1 {
                let ghost old_lit = lit@;
                push_char(&mut lit, '$');
                lit_len += 1;
                proof {
                    lemma_dollars_push(old_lit, '$');
                    lemma_extend_lit(base as int, parts@, old_lit, '$');
                }
                i += 1;
                b = b + 1;
                continue;
            }
            let ghost parts0 = parts@;
            let ghost lit0 = lit@;
            proof {
                crate::text::lemma_byte_len_mono(text@, e as int, n as int);
                crate::text::lemma_byte_len_mono(text@, i + 1, e as int);
            }
            if lit_len > 0 {
                let l = lit;
                lit = String::new();
                lit_len = 0;
                parts.push(StrPart::Lit(l));
                proof {
                    lemma_parts_text_push(parts0, StrPart::Lit(l));
                }
            }
            let ghost parts1 = parts@;
            assert(parts_text(parts1) == parts_text(parts0) + lit0);
            let name = string_of_range(text, i + 1, e);
            let start = base + b + 1;
            let span = Span::new(start, base + eb);
            proof {
                lemma_byte_len_split(text@, i + 1, e as int);
                assert(parts_text(parts1) + seq!['$'] =~= text@.take(i + 1));
                assert forall|k: int| 0 <= k < name@.len() implies is_ident_char(
                    #[trigger] name@[k],
                ) by {
                    assert(name@[k] == text@[i + 1 + k]);
                }
            }
            let ip = StrPart::Interp(name, span);
            proof {
                lemma_start_interp(base as int, parts0, lit0, parts1, ip, c);
            }
            parts.push(ip);
            proof {
                lemma_parts_text_push(parts1, ip);
                assert(text@.take(i + 1) + name@ =~= text@.take(e as int));
                assert(lit@ =~= Seq::<char>::empty());
            }
            i = e;
            b = eb;
        } else {
            let ghost old_lit = lit@;
            push_char(&mut lit, c);
            lit_len += 1;
            proof {
                lemma_dollars_push(old_lit, c);
                lemma_extend_lit(base as int, parts@, old_lit, c);
            }
            b = b + len_utf8(c);
            i += 1;
        }
    }
    let ghost parts0 = parts@;
    let ghost lit_end = lit@;
    if lit_len > 0 || parts.len() == 0 {
        let lp = StrPart::Lit(lit);
        parts.push(lp);
        proof {
            lemma_parts_text_push(parts0, lp);
        }
    } else {
        assert(parts_text(parts@) =~= parts_text(parts@) + lit@);
    }
    proof {
        lemma_finish(base as int, parts0, lit_end, parts@);
        assert(text@.take(n as int) =~= text@);
    }
    StrLit::Bare(parts)
}

/// Splits the bare word `text`, whose first byte stands at
/// `base_span.start`, into literal text and `$name` interpolations.
pub fn parse_interpolated(text: &str, base_span: Span) -> (r: StrLit)
    requires
        base_span.start + byte_len(text@) <= u32::MAX,
    ensures
        r matches StrLit::Bare(parts) && interpolated(text@, base_span.start as int, parts@),
{
    let cs = chars_of(text);
    split_interpolated(cs.as_slice(), base_span)
}

// ---------------------------------------------------------------------
// Bare words in value and expression positions
// ---------------------------------------------------------------------

/// A pure `$name` word in an expression: the documented error (`$name`
/// cannot be used in an expression).
pub open spec fn dollar_error(w: Seq<char>, in_expression: bool) -> bool {
    in_expression && w.len() > 1 && w[0] == '$' && all_ident(w.drop_first())
}

/// An identifier: a letter or `_`, then letters, digits, `_` and `-`.
pub open spec fn is_name(w: Seq<char>) -> bool {
    &&& w.len() > 0
    &&& !crate::text::is_digit(w[0])
    &&& is_ident_char(w[0])
    &&& forall|k: int| 0 <= k < w.len() ==> is_ident_char(#[trigger] w[k]) || w[k] == '-'
}

/// The expression a bare word reads as (when it is no error): a string
/// when it holds a `$` (interpolated), or when it stands alone as a value
/// and is no identifier (`SUPER+Return`, `cert.pem`); otherwise a member
/// access split at its first `.`, or a plain identifier, which evaluation
/// resolves to a binding or else takes as literal text.
pub open spec fn bare_word_expr(w: Seq<char>, span: Span, in_expression: bool, e: Expr) -> bool {
    &&& e.span == span
    &&& if w.contains('$') || (!in_expression && !is_name(w)) {
        e.kind matches ExprKind::Str(StrLit::Bare(parts)) && interpolated(
            w,
            span.start as int,
            parts@,
        )
    } else if w.contains('.') {
        e.kind matches ExprKind::Member(b, f, fsp) && b.kind matches ExprKind::Ident(x) && x@
            == before_dot(w) && b.span == span && f@ == after_dot(w) && fsp == span
    } else {
        e.kind matches ExprKind::Ident(x) && x@ == w
    }
}

fn all_ident_from(w: &[char], from: usize) -> (b: bool)
    requires
        from <= w.len(),
    ensures
        b == all_ident(w@.skip(from as int)),
{
    let mut i = from;
    while i < w.len()
        invariant
            from <= i <= w.len(),
            forall|k: int| from <= k < i ==> is_ident_char(#[trigger] w@[k]),
        decreases w.len() - i,
    {
        if !is_interp_char(w[i]) {
            assert(!is_ident_char(w@.skip(from as int)[i - from]));
            return false;
        }
        i += 1;
    }
    assert forall|k: int| 0 <= k < w@.skip(from as int).len() implies is_ident_char(
        #[trigger] w@.skip(from as int)[k],
    ) by {
        assert(w@.skip(from as int)[k] == w@[from + k]);
    }
    true
}

fn is_name_word(w: &[char]) -> (b: bool)
    ensures
        b == is_name(w@),
{
    if w.len() == 0 || crate::text::is_ascii_digit(w[0]) || !is_interp_char(w[0]) {
        return false;
    }
    let mut i: usize = 0;
    while i < w.len()
        invariant
            i <= w.len(),
            forall|k: int| 0 <= k < i ==> is_ident_char(#[trigger] w@[k]) || w@[k] == '-',
        decreases w.len() - i,
    {
        if !(is_interp_char(w[i]) || w[i] == '-') {
            return false;
        }
        i += 1;
    }
    true
}

/// Classifies a bare word into an expression: words with a `$`
/// interpolate into a string, and so does (as plain text) a word standing
/// alone as a value that is no identifier; a word with a dot splits into a
/// member access (whether its base is a real binding is decided at
/// evaluation time); anything else is a plain identifier. `in_expression`
/// decides what a pure `$name` word does: an error inside a real
/// expression, valid interpolation in a single-token value position.
fn classify_bare_word(word: &[char], span: Span, in_expression: bool) -> (r: Result<Expr, SyntaxError>)
    requires
        span.start + byte_len(word@) <= u32::MAX,
    ensures
        r is Err <==> dollar_error(word@, in_expression),
        r matches Err(e) ==> e matches SyntaxError::DollarInExpression { name, span: sp } && name@
            == word@.drop_first() && sp == span,
        r matches Ok(e) ==> bare_word_expr(word@, span, in_expression, e),
{
    let n = word.len();
    if in_expression && n > 1 && word[0] == '$' && all_ident_from(word, 1) {
        let name = string_of_range(word, 1, n);
        assert(name@ =~= word@.drop_first());
        assert(word@.skip(1) =~= word@.drop_first());
        return Err(SyntaxError::DollarInExpression { name, span });
    }
    proof {
        if n > 1 {
            assert(word@.skip(1) =~= word@.drop_first());
        }
    }
    if crate::text::contains_char(word, '$') || (!in_expression && !is_name_word(word)) {
        let lit = split_interpolated(word, span);
        return Ok(Expr::new(ExprKind::Str(lit), span));
    }
    match find_char(word, '.') {
        Some(d) => {
            let base = string_of_range(word, 0, d);
            let field = string_of_range(word, d + 1, n);
            assert(base@ =~= before_dot(word@));
            assert(field@ =~= after_dot(word@));
            let base_expr = Expr::new(ExprKind::Ident(base), span);
            Ok(Expr::new(ExprKind::Member(Box::new(base_expr), field, span), span))
        },
        None => {
            let w = string_of_range(word, 0, n);
            assert(w@ =~= word@);
            Ok(Expr::new(ExprKind::Ident(w), span))
        },
    }
}

// ---------------------------------------------------------------------
// The token cursor
// ---------------------------------------------------------------------

/// A bare word's text fits in the byte range its span starts.
pub open spec fn word_fits(t: Token) -> bool {
    t.kind matches TokenKind::BareWord(w) ==> t.span.start + byte_len(w@) <= u32::MAX
}

/// A token stream the parser can walk: it ends with its only `Eof`, and
/// every bare word fits in the byte range it starts.
pub open spec fn stream_ok(toks: Seq<Token>) -> bool {
    &&& toks.len() > 0
    &&& toks.last().kind is Eof
    &&& forall|i: int| 0 <= i < toks.len() - 1 ==> !(#[trigger] toks[i].kind is Eof)
    &&& forall|i: int| 0 <= i < toks.len() ==> word_fits(#[trigger] toks[i])
}

/// The index of the first non-comment token at or after `from` (the last
/// token when there is none).
pub open spec fn next_sig(toks: Seq<Token>, from: int) -> int
    decreases toks.len() - from,
{
    if from >= toks.len() - 1 {
        toks.len() - 1
    } else if toks[from].kind is Comment {
        next_sig(toks, from + 1)
    } else {
        from
    }
}

pub proof fn lemma_next_sig(toks: Seq<Token>, from: int)
    requires
        stream_ok(toks),
        0 <= from,
    ensures
        from <= toks.len() - 1 ==> from <= next_sig(toks, from),
        next_sig(toks, from) <= toks.len() - 1,
        0 <= next_sig(toks, from),
        !(toks[next_sig(toks, from)].kind is Comment),
    decreases toks.len() - from,
{
    if from < toks.len() - 1 && toks[from].kind is Comment {
        lemma_next_sig(toks, from + 1);
    }
}

struct Parser {
    src: Vec<char>,
    offs: Vec<u32>,
    tokens: Vec<Token>,
    pos: usize,
}

impl Parser {
    spec fn wf(&self) -> bool {
        &&& stream_ok(self.tokens@)
        &&& self.pos < self.tokens@.len()
        &&& crate::text::offsets_of(self.src@, self.offs@)
    }

    /// The parser moved forward over the same input.
    spec fn moved(old: Parser, new: Parser) -> bool {
        &&& new.wf()
        &&& new.tokens@ == old.tokens@
        &&& new.src@ == old.src@
        &&& new.offs@ == old.offs@
        &&& new.pos >= old.pos
    }

    /// The index of the current significant token.
    spec fn at(&self) -> int {
        next_sig(self.tokens@, self.pos as int)
    }

    /// The current significant token.
    spec fn cur(&self) -> Token {
        self.tokens@[self.at()]
    }

    fn last_index(&self) -> (i: usize)
        requires
            self.wf(),
        ensures
            i == self.tokens@.len() - 1,
    {
        self.tokens.len() - 1
    }

    /// The index of the first non-comment token at or after `from`.
    fn sig(&self, from: usize) -> (i: usize)
        requires
            self.wf(),
        ensures
            i == next_sig(self.tokens@, from as int),
    {
        let last = self.last_index();
        let mut i = if from < last { from } else { last };
        while i < last && self.tokens[i].kind.is_comment()
            invariant
                self.wf(),
                last == self.tokens@.len() - 1,
                i <= last,
                next_sig(self.tokens@, i as int) == next_sig(self.tokens@, from as int),
            decreases last - i,
        {
            i += 1;
        }
        i
    }

    fn peek(&self) -> (t: &Token)
        requires
            self.wf(),
        ensures
            *t == self.cur(),
    {
        proof {
            lemma_next_sig(self.tokens@, self.pos as int);
        }
        let i = self.sig(self.pos);
        &self.tokens[i]
    }

    fn peek2(&self) -> (t: &Token)
        requires
            self.wf(),
        ensures
            *t == self.tokens@[next_sig(self.tokens@, self.at() + 1)],
    {
        proof {
            lemma_next_sig(self.tokens@, self.pos as int);
            lemma_next_sig(self.tokens@, self.at() + 1);
        }
        let n = self.tokens.len();
        let i = self.sig(self.pos);
        assert(i < n);
        let j = self.sig(i + 1);
        &self.tokens[j]
    }

    fn current_span(&self) -> (s: Span)
        requires
            self.wf(),
        ensures
            s == self.cur().span,
    {
        self.peek().span
    }

    /// Consumes the current significant token (never past `Eof`).
    fn bump(&mut self) -> (t: Token)
        requires
            old(self).wf(),
        ensures
            Parser::moved(*old(self), *final(self)),
            t == old(self).cur(),
            !(t.kind is Eof) ==> final(self).pos == old(self).at() + 1,
            t.kind is Eof ==> final(self).pos == old(self).at(),
            !(t.kind is Comment),
    {
        proof {
            lemma_next_sig(self.tokens@, self.pos as int);
        }
        let n = self.tokens.len();
        let i = self.sig(self.pos);
        assert(i < n);
        let tok = self.tokens[i].clone();
        if !matches!(tok.kind, TokenKind::Eof) {
            self.pos = i + 1;
        } else {
            self.pos = i;
        }
        tok
    }

    /// Is the current token of the same variant as `kind`?
    fn check(&self, kind: &TokenKind) -> (b: bool)
        requires
            self.wf(),
        ensures
            b == (kind_tag(self.cur().kind) == kind_tag(*kind)),
    {
        tag_of(&self.peek().kind) == tag_of(kind)
    }
}

/// The keywords that begin a statement, as opposed to a node or leaf name.
pub open spec fn is_statement_keyword(k: TokenKind) -> bool {
    k is If || k is For || k is While || k is Local || k is Return || k is Fn || k is Script
        || k is Include
}

fn statement_keyword(kind: &TokenKind) -> (b: bool)
    ensures
        b == is_statement_keyword(*kind),
{
    matches!(
        kind,
        TokenKind::If | TokenKind::For | TokenKind::While | TokenKind::Local | TokenKind::Return
            | TokenKind::Fn | TokenKind::Script | TokenKind::Include
    )
}

/// The errors that the parser itself reports.
pub open spec fn parse_error(e: SyntaxError) -> bool {
    e is UnexpectedToken || e is AtInExpression || e is DollarInExpression || e is ReservedWord
        || e is UnexpectedEof
}

fn owned(s: &str) -> (r: String)
    ensures
        r@ == s@,
{
    s.to_owned()
}

impl Parser {
    /// Consumes a token of the variant of `kind`, or reports what was found
    /// instead.
    fn expect(&mut self, kind: TokenKind, expected: &str) -> (r: Result<Token, SyntaxError>)
        requires
            old(self).wf(),
            !(kind is Eof),
        ensures
            Parser::moved(*old(self), *final(self)),
            (tok_res_v(r), final(self).pos as int) == sp_expect(
                old(self).tokens@,
                old(self).pos as int,
                kind,
                expected@,
            ),
            r matches Ok(t) ==> t == old(self).cur() && kind_tag(t.kind) == kind_tag(kind)
                && final(self).pos == old(self).at() + 1,
            r matches Err(e) ==> parse_error(e) && e == (if old(self).cur().kind is Eof {
                SyntaxError::UnexpectedEof {
                    context: e->UnexpectedEof_context,
                    span: old(self).cur().span,
                }
            } else {
                SyntaxError::UnexpectedToken {
                    expected: e->UnexpectedToken_expected,
                    found: e->UnexpectedToken_found,
                    span: old(self).cur().span,
                }
            }),
    {
        if self.check(&kind) {
            let t = self.bump();
            assert(!(t.kind is Eof));
            Ok(t)
        } else if matches!(self.peek().kind, TokenKind::Eof) {
            Err(SyntaxError::UnexpectedEof { context: owned(expected), span: self.current_span() })
        } else {
            Err(SyntaxError::UnexpectedToken {
                expected: owned(expected),
                found: self.peek().kind.describe(),
                span: self.current_span(),
            })
        }
    }

    /// Consumes a name (node, leaf, variable or function identifier),
    /// reporting a reserved word in its place.
    fn expect_name(&mut self, context: &str) -> (r: Result<(String, Span), SyntaxError>)
        requires
            old(self).wf(),
        ensures
            Parser::moved(*old(self), *final(self)),
            (name_res_v(r), final(self).pos as int) == sp_expect_name(
                old(self).tokens@,
                old(self).pos as int,
                context@,
            ),
            r matches Ok((w, sp)) ==> old(self).cur().kind matches TokenKind::BareWord(x) && x@
                == w@ && sp == old(self).cur().span && final(self).pos == old(self).at() + 1,
            r is Ok <==> old(self).cur().kind is BareWord,
            r matches Err(e) ==> parse_error(e) && (e is ReservedWord <==> (is_statement_keyword(
                old(self).cur().kind,
            ) || old(self).cur().kind is Else || old(self).cur().kind is Elseif || old(
                self,
            ).cur().kind is End)),
    {
        let tok = self.peek();
        match &tok.kind {
            TokenKind::BareWord(w) => {
                let w = w.clone();
                let span = tok.span;
                self.bump();
                Ok((w, span))
            },
            TokenKind::Eof => Err(SyntaxError::UnexpectedEof { context: owned(context), span: tok.span }),
            other => {
                if statement_keyword(other) || matches!(
                    other,
                    TokenKind::Else | TokenKind::Elseif | TokenKind::End
                ) {
                    Err(SyntaxError::ReservedWord { keyword: other.describe(), span: tok.span })
                } else {
                    Err(SyntaxError::UnexpectedToken {
                        expected: owned(context),
                        found: other.describe(),
                        span: tok.span,
                    })
                }
            },
        }
    }

    /// The number of line breaks in the source between byte offsets `from`
    /// and `to` (none when they are not in order or not character starts).
    fn newlines_between(&self, from: u32, to: u32) -> (n: usize)
        requires
            self.wf(),
        ensures
            n == crate::grammar::newlines_between(self.src@, from as int, to as int),
    {
        let a = crate::text::char_index_of_byte(self.src.as_slice(), self.offs.as_slice(), from);
        let b = crate::text::char_index_of_byte(self.src.as_slice(), self.offs.as_slice(), to);
        proof {
            match a {
                Some(i) => lemma_char_at_byte_some(self.src@, self.offs@, from as int, i as int),
                None => lemma_char_at_byte_none(self.src@, self.offs@, from as int),
            }
            match b {
                Some(i) => lemma_char_at_byte_some(self.src@, self.offs@, to as int, i as int),
                None => lemma_char_at_byte_none(self.src@, self.offs@, to as int),
            }
        }
        match (a, b) {
            (Some(a), Some(b)) => {
                if b < a {
                    return 0;
                }
                let mut count: usize = 0;
                let mut i = a;
                proof {
                    assert(self.src@.subrange(a as int, a as int) =~= Seq::<char>::empty());
                }
                while i < b
                    invariant
                        a <= i <= b,
                        b <= self.src@.len(),
                        count <= i - a,
                        count == count_newlines(self.src@.subrange(a as int, i as int)),
                    decreases b - i,
                {
                    proof {
                        assert(self.src@.subrange(a as int, i + 1).drop_last() =~= self.src@.subrange(
                            a as int,
                            i as int,
                        ));
                    }
                    if self.src[i] == '\n' {
                        count += 1;
                    }
                    i += 1;
                }
                count
            },
            _ => 0,
        }
    }

    /// Is byte offset `start` on the same line as byte offset `end`?
    fn same_line(&self, end: u32, start: u32) -> (b: bool)
        requires
            self.wf(),
        ensures
            b == crate::grammar::same_line(self.src@, end as int, start as int),
    {
        proof {
            assert(self.src@.take(self.src@.len() as int) =~= self.src@);
        }
        if end > start || end > self.offs[self.src.len()] || start > self.offs[self.src.len()] {
            return true;
        }
        self.newlines_between(end, start) == 0
    }

    fn to_comment(tok: &Token) -> (c: Comment)
        requires
            tok.kind is Comment,
        ensures
            comment_v(c) == comment_tok_v(*tok),
    {
        match &tok.kind {
            TokenKind::Comment(text, style) => Comment {
                text: text.clone(),
                block: matches!(style, CommentStyle::Block),
                span: tok.span,
            },
            _ => Comment { text: String::new(), block: false, span: tok.span },
        }
    }

    /// Attaches a comment that follows the last item on its own line as
    /// that item's trailing comment.
    fn attach_trailing(&mut self, items: &mut Vec<Item>)
        requires
            old(self).wf(),
        ensures
            Parser::moved(*old(self), *final(self)),
            final(self).at() == old(self).at(),
            final(items)@.len() == old(items)@.len(),
            (items_v(final(items)@), final(self).pos as int) == attach_at(
                old(self).tokens@,
                old(self).src@,
                items_v(old(items)@),
                old(self).pos as int,
            ),
            items_strs_ok(old(items)@) ==> items_strs_ok(final(items)@),
    {
        let n = items.len();
        proof {
            lemma_items_len(items@);
        }
        if n == 0 {
            return;
        }
        proof {
            lemma_items_replace_last(items@, items@.last());
        }
        if items[n - 1].trivia.trailing.is_some() {
            return;
        }
        let last = self.last_index();
        if self.pos > last {
            return;
        }
        let is_trailing = {
            let tok = &self.tokens[self.pos];
            tok.kind.is_comment() && self.same_line(items[n - 1].span.end, tok.span.start)
        };
        if is_trailing {
            let c = Parser::to_comment(&self.tokens[self.pos]);
            let ghost before = items@;
            let mut it = items.pop().unwrap();
            it.trivia.trailing = Some(c);
            proof {
                lemma_items_replace_last(before, it);
                assert(item_v(it) == crate::grammar::with_trailing(item_v(before.last()), comment_v(c)));
            }
            items.push(it);
            proof {
                assert(self.tokens@[self.pos as int].kind is Comment);
                assert(self.pos < last);
            }
            self.pos = self.pos + 1;
        }
    }

    /// Consumes the comments at the cursor, to lead the next item.
    fn collect_leading(&mut self) -> (out: Vec<Comment>)
        requires
            old(self).wf(),
        ensures
            Parser::moved(*old(self), *final(self)),
            final(self).at() == old(self).at(),
            !(final(self).tokens@[final(self).pos as int].kind is Comment),
            final(self).pos == next_sig(old(self).tokens@, old(self).pos as int),
            comments_v(out@) == leading_at(old(self).tokens@, old(self).pos as int),
    {
        let mut out: Vec<Comment> = Vec::new();
        let last = self.last_index();
        let ghost ts = self.tokens@;
        let ghost p0 = self.pos as int;
        while self.pos <= last && self.tokens[self.pos].kind.is_comment()
            invariant
                Parser::moved(*old(self), *self),
                self.at() == old(self).at(),
                last == self.tokens@.len() - 1,
                ts == self.tokens@,
                p0 == old(self).pos,
                p0 <= self.pos,
                comments_v(out@) =~= Seq::new(
                    (self.pos - p0) as nat,
                    |k: int| comment_tok_v(ts[p0 + k]),
                ),
            decreases last - self.pos,
        {
            let c = Parser::to_comment(&self.tokens[self.pos]);
            proof {
                assert(comments_v(out@.push(c)) =~= comments_v(out@).push(comment_v(c)));
            }
            out.push(c);
            self.pos = self.pos + 1;
        }
        out
    }
}

/// The binary operator a token stands for, with its left and right binding
/// powers (higher binds tighter).
pub open spec fn binop_of(k: TokenKind) -> Option<(BinOp, u8, u8)> {
    match k {
        TokenKind::Or => Some((BinOp::Or, 1u8, 2u8)),
        TokenKind::And => Some((BinOp::And, 3u8, 4u8)),
        TokenKind::EqEq => Some((BinOp::Eq, 5u8, 6u8)),
        TokenKind::NotEq => Some((BinOp::NotEq, 5u8, 6u8)),
        TokenKind::Lt => Some((BinOp::Lt, 5u8, 6u8)),
        TokenKind::Gt => Some((BinOp::Gt, 5u8, 6u8)),
        TokenKind::LtEq => Some((BinOp::LtEq, 5u8, 6u8)),
        TokenKind::GtEq => Some((BinOp::GtEq, 5u8, 6u8)),
        TokenKind::Plus => Some((BinOp::Add, 7u8, 8u8)),
        TokenKind::Minus => Some((BinOp::Sub, 7u8, 8u8)),
        TokenKind::Star => Some((BinOp::Mul, 9u8, 10u8)),
        TokenKind::Slash => Some((BinOp::Div, 9u8, 10u8)),
        TokenKind::Percent => Some((BinOp::Mod, 9u8, 10u8)),
        _ => None,
    }
}

/// The precedence level of an infix operator token, loosest first, as the
/// grammar layers them: `or`, then `and`, then the comparisons, then `+`
/// and `-`, then `*`, `/` and `%`.
pub open spec fn grammar_level(k: TokenKind) -> int {
    match k {
        TokenKind::Or => 1,
        TokenKind::And => 2,
        TokenKind::EqEq | TokenKind::NotEq | TokenKind::Lt | TokenKind::Gt | TokenKind::LtEq
        | TokenKind::GtEq => 3,
        TokenKind::Plus | TokenKind::Minus => 4,
        TokenKind::Star | TokenKind::Slash | TokenKind::Percent => 5,
        _ => 0,
    }
}

/// The operator an infix token stands for.
pub open spec fn infix_op(k: TokenKind) -> Option<BinOp> {
    match k {
        TokenKind::Or => Some(BinOp::Or),
        TokenKind::And => Some(BinOp::And),
        TokenKind::EqEq => Some(BinOp::Eq),
        TokenKind::NotEq => Some(BinOp::NotEq),
        TokenKind::Lt => Some(BinOp::Lt),
        TokenKind::Gt => Some(BinOp::Gt),
        TokenKind::LtEq => Some(BinOp::LtEq),
        TokenKind::GtEq => Some(BinOp::GtEq),
        TokenKind::Plus => Some(BinOp::Add),
        TokenKind::Minus => Some(BinOp::Sub),
        TokenKind::Star => Some(BinOp::Mul),
        TokenKind::Slash => Some(BinOp::Div),
        TokenKind::Percent => Some(BinOp::Mod),
        _ => None,
    }
}

/// Infix operators bind as the grammar layers them, and each associates
/// to the left. The expression loop reads an operator `b` after the
/// operand that follows an operator `a` only when `b`'s left binding power
/// is at least `a`'s right one. So in `x a y b z`, `b` takes `y` (giving
/// `x a (y b z)`) exactly when `b` stands on a tighter level than `a`;
/// on the same or a looser level, `(x a y) b z`. For instance `p or q and
/// r` reads as `p or (q and r)`, and `a - b - c` as `(a - b) - c`.
pub proof fn lemma_operators_bind_by_grammar_level(a: TokenKind, b: TokenKind)
    requires
        infix_op(a) is Some,
        infix_op(b) is Some,
    ensures
        binop_of(a) matches Some((op, _, _)) && infix_op(a) == Some(op),
        binop_of(b) matches Some((op, _, _)) && infix_op(b) == Some(op),
        grammar_level(a) < grammar_level(b) ==> (binop_of(b)->0).1 >= (binop_of(a)->0).2,
        grammar_level(a) >= grammar_level(b) ==> (binop_of(b)->0).1 < (binop_of(a)->0).2,
        (binop_of(a)->0).1 > 0,
{
}

fn binop(kind: &TokenKind) -> (r: Option<(BinOp, u8, u8)>)
    ensures
        r == binop_of(*kind),
{
    match kind {
        TokenKind::Or => Some((BinOp::Or, 1, 2)),
        TokenKind::And => Some((BinOp::And, 3, 4)),
        TokenKind::EqEq => Some((BinOp::Eq, 5, 6)),
        TokenKind::NotEq => Some((BinOp::NotEq, 5, 6)),
        TokenKind::Lt => Some((BinOp::Lt, 5, 6)),
        TokenKind::Gt => Some((BinOp::Gt, 5, 6)),
        TokenKind::LtEq => Some((BinOp::LtEq, 5, 6)),
        TokenKind::GtEq => Some((BinOp::GtEq, 5, 6)),
        TokenKind::Plus => Some((BinOp::Add, 7, 8)),
        TokenKind::Minus => Some((BinOp::Sub, 7, 8)),
        TokenKind::Star => Some((BinOp::Mul, 9, 10)),
        TokenKind::Slash => Some((BinOp::Div, 9, 10)),
        TokenKind::Percent => Some((BinOp::Mod, 9, 10)),
        _ => None,
    }
}

/// The expression a single literal token reads as (for the token kinds
/// that carry their value directly).
pub open spec fn literal_expr(k: TokenKind, span: Span, e: Expr) -> bool {
    &&& e.span == span
    &&& match k {
        TokenKind::Int(n) => e.kind == ExprKind::Int(n),
        TokenKind::Float(f) => e.kind matches ExprKind::Float(g) && g@ == f@,
        TokenKind::True => e.kind == ExprKind::Bool(true),
        TokenKind::False => e.kind == ExprKind::Bool(false),
        TokenKind::Nil => e.kind == ExprKind::Nil,
        TokenKind::ColorLit(h) => e.kind matches ExprKind::Color(g) && g@ == h@,
        TokenKind::DurationLit(n, u) => e.kind matches ExprKind::Duration(a, b) && a@ == n@ && b@
            == u@,
        TokenKind::QuotedString(q) => e.kind matches ExprKind::Str(StrLit::Quoted(t)) && t@ == q@,
        _ => false,
    }
}

pub open spec fn is_literal_kind(k: TokenKind) -> bool {
    k is Int || k is Float || k is True || k is False || k is Nil || k is ColorLit
        || k is DurationLit || k is QuotedString
}

/// Builds the expression for a literal token.
fn literal(tok: &Token) -> (e: Expr)
    requires
        is_literal_kind(tok.kind),
    ensures
        literal_expr(tok.kind, tok.span, e),
{
    let kind = match &tok.kind {
        TokenKind::Int(n) => ExprKind::Int(*n),
        TokenKind::Float(f) => ExprKind::Float(f.clone()),
        TokenKind::True => ExprKind::Bool(true),
        TokenKind::False => ExprKind::Bool(false),
        TokenKind::ColorLit(h) => ExprKind::Color(h.clone()),
        TokenKind::DurationLit(n, u) => ExprKind::Duration(n.clone(), u.clone()),
        TokenKind::QuotedString(q) => ExprKind::Str(StrLit::Quoted(q.clone())),
        _ => ExprKind::Nil,
    };
    Expr::new(kind, tok.span)
}

fn word_chars(w: &String) -> (v: Vec<char>)
    ensures
        v@ == w@,
{
    crate::text::chars_of(w.as_str())
}

// ---------------------------------------------------------------------
// What the expression parser returns
// ---------------------------------------------------------------------

/// A string literal with its text as characters: a bare string by the text
/// it was written as (its split into parts is what [`interpolated`] says).
pub enum StrV {
    Quoted(Seq<char>),
    Bare(Seq<char>),
}

/// An expression with its texts as characters.
pub struct ExprV {
    pub kind: ExprKindV,
    pub span: Span,
}

pub enum ExprKindV {
    Int(i64),
    Float(Seq<char>),
    Bool(bool),
    Nil,
    Str(StrV),
    Color(Seq<char>),
    Duration(Seq<char>, Seq<char>),
    List(Seq<ExprV>),
    Ident(Seq<char>),
    Unary(UnOp, Box<ExprV>),
    Binary(BinOp, Box<ExprV>, Box<ExprV>),
    Call(Box<ExprV>, Seq<ExprV>),
    Member(Box<ExprV>, Seq<char>, Span),
}

pub open spec fn strlit_v(l: StrLit) -> StrV {
    match l {
        StrLit::Quoted(s) => StrV::Quoted(s@),
        StrLit::Bare(ps) => StrV::Bare(parts_text(ps@)),
    }
}

pub open spec fn expr_v(e: Expr) -> ExprV
    decreases e, 1nat,
{
    ExprV { kind: kind_v(e.kind), span: e.span }
}

pub open spec fn kind_v(k: ExprKind) -> ExprKindV
    decreases k, 0nat,
{
    match k {
        ExprKind::Int(n) => ExprKindV::Int(n),
        ExprKind::Float(s) => ExprKindV::Float(s@),
        ExprKind::Bool(b) => ExprKindV::Bool(b),
        ExprKind::Nil => ExprKindV::Nil,
        ExprKind::Str(l) => ExprKindV::Str(strlit_v(l)),
        ExprKind::Color(h) => ExprKindV::Color(h@),
        ExprKind::Duration(a, u) => ExprKindV::Duration(a@, u@),
        ExprKind::List(items) => ExprKindV::List(exprs_v(items@)),
        ExprKind::Ident(n) => ExprKindV::Ident(n@),
        ExprKind::Unary(op, x) => ExprKindV::Unary(op, Box::new(expr_v(*x))),
        ExprKind::Binary(op, l, r) => ExprKindV::Binary(op, Box::new(expr_v(*l)), Box::new(expr_v(*r))),
        ExprKind::Call(c, args) => ExprKindV::Call(Box::new(expr_v(*c)), exprs_v(args@)),
        ExprKind::Member(b, f, sp) => ExprKindV::Member(Box::new(expr_v(*b)), f@, sp),
    }
}

pub open spec fn exprs_v(s: Seq<Expr>) -> Seq<ExprV>
    decreases s, 0nat,
{
    if s.len() == 0 {
        seq![]
    } else {
        exprs_v(s.drop_last()).push(expr_v(s.last()))
    }
}

/// Every bare string in the expression splits into parts as
/// [`interpolated`] says, from the first byte of its own span.
pub open spec fn strs_ok(e: Expr) -> bool
    decreases e, 1nat,
{
    match e.kind {
        ExprKind::Str(StrLit::Bare(ps)) => interpolated(parts_text(ps@), e.span.start as int, ps@),
        ExprKind::List(items) => all_strs_ok(items@),
        ExprKind::Unary(_, x) => strs_ok(*x),
        ExprKind::Binary(_, l, r) => strs_ok(*l) && strs_ok(*r),
        ExprKind::Call(c, args) => strs_ok(*c) && all_strs_ok(args@),
        ExprKind::Member(b, _, _) => strs_ok(*b),
        _ => true,
    }
}

pub open spec fn all_strs_ok(s: Seq<Expr>) -> bool
    decreases s, 0nat,
{
    if s.len() == 0 {
        true
    } else {
        all_strs_ok(s.drop_last()) && strs_ok(s.last())
    }
}

/// A syntax error with its texts as characters.
pub enum ErrV {
    UnexpectedToken { expected: Seq<char>, found: Seq<char>, span: Span },
    AtInExpression { name: Seq<char>, span: Span },
    DollarInExpression { name: Seq<char>, span: Span },
    ReservedWord { keyword: Seq<char>, span: Span },
    UnexpectedEof { context: Seq<char>, span: Span },
    UnterminatedString { span: Span },
    UnterminatedComment { span: Span },
    SqueezedOperator { original: Seq<char>, suggestion: Seq<char>, span: Span },
    /// An error neither the lexer nor the parser reports.
    Other,
}

pub open spec fn err_v(e: SyntaxError) -> ErrV {
    match e {
        SyntaxError::UnexpectedToken { expected, found, span } => ErrV::UnexpectedToken {
            expected: expected@,
            found: found@,
            span,
        },
        SyntaxError::AtInExpression { name, span } => ErrV::AtInExpression { name: name@, span },
        SyntaxError::DollarInExpression { name, span } => ErrV::DollarInExpression { name: name@, span },
        SyntaxError::ReservedWord { keyword, span } => ErrV::ReservedWord { keyword: keyword@, span },
        SyntaxError::UnexpectedEof { context, span } => ErrV::UnexpectedEof { context: context@, span },
        SyntaxError::UnterminatedString { span } => ErrV::UnterminatedString { span },
        SyntaxError::UnterminatedComment { span } => ErrV::UnterminatedComment { span },
        SyntaxError::SqueezedOperator { original, suggestion, span } => ErrV::SqueezedOperator {
            original: original@,
            suggestion: suggestion@,
            span,
        },
        _ => ErrV::Other,
    }
}

pub open spec fn res_v(r: Result<Expr, SyntaxError>) -> Result<ExprV, ErrV> {
    match r {
        Ok(e) => Ok(expr_v(e)),
        Err(e) => Err(err_v(e)),
    }
}

/// The significant token at raw position `p` (comments skipped).
pub open spec fn tok_at(ts: Seq<Token>, p: int) -> Token {
    ts[next_sig(ts, p)]
}

/// Where the cursor stands after consuming the significant token at `p`
/// (it never moves past `Eof`).
pub open spec fn pos_after(ts: Seq<Token>, p: int) -> int {
    if tok_at(ts, p).kind is Eof {
        next_sig(ts, p)
    } else {
        next_sig(ts, p) + 1
    }
}

/// The expression a literal token reads as.
pub open spec fn lit_v(k: TokenKind, span: Span) -> ExprV {
    ExprV {
        kind: match k {
            TokenKind::Int(n) => ExprKindV::Int(n),
            TokenKind::Float(f) => ExprKindV::Float(f@),
            TokenKind::True => ExprKindV::Bool(true),
            TokenKind::False => ExprKindV::Bool(false),
            TokenKind::ColorLit(h) => ExprKindV::Color(h@),
            TokenKind::DurationLit(n, u) => ExprKindV::Duration(n@, u@),
            TokenKind::QuotedString(q) => ExprKindV::Str(StrV::Quoted(q@)),
            _ => ExprKindV::Nil,
        },
        span,
    }
}

/// The expression a bare word reads as (see [`bare_word_expr`]).
pub open spec fn bare_word_v(w: Seq<char>, span: Span, in_expression: bool) -> ExprV {
    if w.contains('$') || (!in_expression && !is_name(w)) {
        ExprV { kind: ExprKindV::Str(StrV::Bare(w)), span }
    } else if w.contains('.') {
        ExprV {
            kind: ExprKindV::Member(
                Box::new(ExprV { kind: ExprKindV::Ident(before_dot(w)), span }),
                after_dot(w),
                span,
            ),
            span,
        }
    } else {
        ExprV { kind: ExprKindV::Ident(w), span }
    }
}

/// Consuming a token of the variant of `k`, or the error saying what was
/// found instead (the cursor stays put on an error).
pub open spec fn sp_expect(ts: Seq<Token>, p: int, k: TokenKind, expected: Seq<char>) -> (
    Result<Token, ErrV>,
    int,
) {
    let t = tok_at(ts, p);
    if kind_tag(t.kind) == kind_tag(k) {
        (Ok(t), next_sig(ts, p) + 1)
    } else if t.kind is Eof {
        (Err(ErrV::UnexpectedEof { context: expected, span: t.span }), p)
    } else {
        (Err(ErrV::UnexpectedToken { expected, found: describe_text(t.kind), span: t.span }), p)
    }
}

/// Consuming a name, or the error saying what was found instead.
pub open spec fn sp_expect_name(ts: Seq<Token>, p: int, context: Seq<char>) -> (
    Result<(Seq<char>, Span), ErrV>,
    int,
) {
    let t = tok_at(ts, p);
    match t.kind {
        TokenKind::BareWord(w) => (Ok((w@, t.span)), next_sig(ts, p) + 1),
        TokenKind::Eof => (Err(ErrV::UnexpectedEof { context, span: t.span }), p),
        _ => if is_statement_keyword(t.kind) || t.kind is Else || t.kind is Elseif || t.kind is End {
            (Err(ErrV::ReservedWord { keyword: describe_text(t.kind), span: t.span }), p)
        } else {
            (Err(ErrV::UnexpectedToken { expected: context, found: describe_text(t.kind), span: t.span }), p)
        },
    }
}

pub open spec fn span_join(a: Span, b: Span) -> Span {
    crate::span::spec_join(a, b)
}

/// A value position (see [`Parser::parse_value`]): a lone token that
/// nothing continues is a plain value; anything else is an expression.
pub open spec fn sp_value(ts: Seq<Token>, p: int) -> (Result<ExprV, ErrV>, int)
    decreases ts.len() - p, 11nat,
{
    if !(stream_ok(ts) && 0 <= p < ts.len()) {
        (Err(ErrV::Other), p)
    } else {
        proof {
            lemma_next_sig(ts, p);
        }
        if !continues(ts[next_sig(ts, next_sig(ts, p) + 1)].kind) {
            match sp_single(ts, p) {
                (Ok(Some(e)), q) => (Ok(e), q),
                (Err(e), q) => (Err(e), q),
                (Ok(None), _) => sp_expr_bp(ts, p, 0),
            }
        } else {
            sp_expr_bp(ts, p, 0)
        }
    }
}

/// A lone token as a value: a literal, a bare word (where `$name` is
/// interpolation, not an error), or a list; `None` when the token is none
/// of these.
pub open spec fn sp_single(ts: Seq<Token>, p: int) -> (Result<Option<ExprV>, ErrV>, int)
    decreases ts.len() - p, 10nat,
{
    if !(stream_ok(ts) && 0 <= p < ts.len()) {
        (Err(ErrV::Other), p)
    } else {
        let t = tok_at(ts, p);
        if is_literal_kind(t.kind) {
            (Ok(Some(lit_v(t.kind, t.span))), pos_after(ts, p))
        } else {
            match t.kind {
                TokenKind::BareWord(w) => (Ok(Some(bare_word_v(w@, t.span, false))), pos_after(ts, p)),
                TokenKind::LBracket => match sp_list(ts, p) {
                    (Ok(e), q) => (Ok(Some(e)), q),
                    (Err(e), q) => (Err(e), q),
                },
                _ => (Ok(None), p),
            }
        }
    }
}

/// `[` values separated by `,` (a trailing `,` allowed) `]`.
pub open spec fn sp_list(ts: Seq<Token>, p: int) -> (Result<ExprV, ErrV>, int)
    decreases ts.len() - p, 4nat,
{
    if !(stream_ok(ts) && 0 <= p < ts.len()) {
        (Err(ErrV::Other), p)
    } else {
        proof {
            lemma_next_sig(ts, p);
        }
        match sp_expect(ts, p, TokenKind::LBracket, "`[`"@) {
            (Err(e), q) => (Err(e), q),
            (Ok(open), q) => if tok_at(ts, q).kind is RBracket {
                sp_list_close(ts, q, seq![], open.span)
            } else {
                sp_list_items(ts, q, seq![], open.span)
            },
        }
    }
}

pub open spec fn sp_list_items(ts: Seq<Token>, q: int, acc: Seq<ExprV>, open: Span) -> (
    Result<ExprV, ErrV>,
    int,
)
    decreases ts.len() - q, 13nat,
{
    if !(stream_ok(ts) && 0 <= q < ts.len()) {
        (Err(ErrV::Other), q)
    } else {
        match sp_value(ts, q) {
            (Err(e), q1) => (Err(e), q1),
            (Ok(v), q1) => if 0 <= q1 < ts.len() && tok_at(ts, q1).kind is Comma {
                let q2 = pos_after(ts, q1);
                if 0 <= q2 < ts.len() && tok_at(ts, q2).kind is RBracket {
                    sp_list_close(ts, q2, acc.push(v), open)
                } else if q < q2 <= ts.len() {
                    sp_list_items(ts, q2, acc.push(v), open)
                } else {
                    (Err(ErrV::Other), q2)
                }
            } else {
                sp_list_close(ts, q1, acc.push(v), open)
            },
        }
    }
}

pub open spec fn sp_list_close(ts: Seq<Token>, q: int, items: Seq<ExprV>, open: Span) -> (
    Result<ExprV, ErrV>,
    int,
) {
    match sp_expect(ts, q, TokenKind::RBracket, "`]` to close the list"@) {
        (Err(e), q1) => (Err(e), q1),
        (Ok(close), q1) => (Ok(ExprV { kind: ExprKindV::List(items), span: span_join(open, close.span) }), q1),
    }
}

/// Precedence climbing: an operand, then operators binding at least as
/// tightly as `min`, each with its right operand parsed one level tighter
/// (so every operator associates to the left).
pub open spec fn sp_expr_bp(ts: Seq<Token>, p: int, min: u8) -> (Result<ExprV, ErrV>, int)
    decreases ts.len() - p, 9nat,
{
    if !(stream_ok(ts) && 0 <= p < ts.len()) {
        (Err(ErrV::Other), p)
    } else {
        match sp_unary(ts, p) {
            (Err(e), q) => (Err(e), q),
            (Ok(lhs), q) => if p < q <= ts.len() {
                sp_bp_loop(ts, q, min, lhs)
            } else {
                (Err(ErrV::Other), q)
            },
        }
    }
}

pub open spec fn sp_bp_loop(ts: Seq<Token>, q: int, min: u8, lhs: ExprV) -> (Result<ExprV, ErrV>, int)
    decreases ts.len() - q, 2nat,
{
    if !(stream_ok(ts) && 0 <= q < ts.len()) {
        (Ok(lhs), q)
    } else {
        proof {
            lemma_next_sig(ts, q);
        }
        match binop_of(tok_at(ts, q).kind) {
            None => (Ok(lhs), q),
            Some((op, l_bp, r_bp)) => if l_bp < min {
                (Ok(lhs), q)
            } else {
                match sp_expr_bp(ts, next_sig(ts, q) + 1, r_bp) {
                    (Err(e), q2) => (Err(e), q2),
                    (Ok(rhs), q2) => if q < q2 <= ts.len() {
                        sp_bp_loop(
                            ts,
                            q2,
                            min,
                            ExprV {
                                kind: ExprKindV::Binary(op, Box::new(lhs), Box::new(rhs)),
                                span: span_join(lhs.span, rhs.span),
                            },
                        )
                    } else {
                        (Err(ErrV::Other), q2)
                    },
                }
            },
        }
    }
}

/// `-` and `not` prefixes, then a postfix expression.
pub open spec fn sp_unary(ts: Seq<Token>, p: int) -> (Result<ExprV, ErrV>, int)
    decreases ts.len() - p, 8nat,
{
    if !(stream_ok(ts) && 0 <= p < ts.len()) {
        (Err(ErrV::Other), p)
    } else {
        proof {
            lemma_next_sig(ts, p);
        }
        let t = tok_at(ts, p);
        if t.kind is Minus || t.kind is Not {
            let op = if t.kind is Minus {
                UnOp::Neg
            } else {
                UnOp::Not
            };
            match sp_unary(ts, next_sig(ts, p) + 1) {
                (Err(e), q) => (Err(e), q),
                (Ok(x), q) => (
                    Ok(ExprV { kind: ExprKindV::Unary(op, Box::new(x)), span: span_join(t.span, x.span) }),
                    q,
                ),
            }
        } else {
            sp_postfix(ts, p)
        }
    }
}

/// A primary expression followed by any number of argument lists.
pub open spec fn sp_postfix(ts: Seq<Token>, p: int) -> (Result<ExprV, ErrV>, int)
    decreases ts.len() - p, 7nat,
{
    if !(stream_ok(ts) && 0 <= p < ts.len()) {
        (Err(ErrV::Other), p)
    } else {
        match sp_primary(ts, p) {
            (Err(e), q) => (Err(e), q),
            (Ok(e), q) => if p < q <= ts.len() {
                sp_postfix_loop(ts, q, e)
            } else {
                (Err(ErrV::Other), q)
            },
        }
    }
}

pub open spec fn sp_postfix_loop(ts: Seq<Token>, q: int, e: ExprV) -> (Result<ExprV, ErrV>, int)
    decreases ts.len() - q, 6nat,
{
    if !(stream_ok(ts) && 0 <= q < ts.len()) {
        (Ok(e), q)
    } else if tok_at(ts, q).kind is LParen {
        match sp_call_from(ts, q, e) {
            (Err(err), q2) => (Err(err), q2),
            (Ok(e2), q2) => if q < q2 <= ts.len() {
                sp_postfix_loop(ts, q2, e2)
            } else {
                (Err(ErrV::Other), q2)
            },
        }
    } else {
        (Ok(e), q)
    }
}

/// `(` arguments separated by `,` `)` after `callee`.
pub open spec fn sp_call_from(ts: Seq<Token>, p: int, callee: ExprV) -> (Result<ExprV, ErrV>, int)
    decreases ts.len() - p, 5nat,
{
    if !(stream_ok(ts) && 0 <= p < ts.len()) {
        (Err(ErrV::Other), p)
    } else {
        proof {
            lemma_next_sig(ts, p);
        }
        match sp_expect(ts, p, TokenKind::LParen, "`(`"@) {
            (Err(e), q) => (Err(e), q),
            (Ok(_), q) => if tok_at(ts, q).kind is RParen {
                sp_call_close(ts, q, callee, seq![])
            } else {
                sp_args(ts, q, callee, seq![])
            },
        }
    }
}

pub open spec fn sp_args(ts: Seq<Token>, q: int, callee: ExprV, acc: Seq<ExprV>) -> (
    Result<ExprV, ErrV>,
    int,
)
    decreases ts.len() - q, 13nat,
{
    if !(stream_ok(ts) && 0 <= q < ts.len()) {
        (Err(ErrV::Other), q)
    } else {
        match sp_value(ts, q) {
            (Err(e), q1) => (Err(e), q1),
            (Ok(v), q1) => if 0 <= q1 < ts.len() && tok_at(ts, q1).kind is Comma {
                let q2 = pos_after(ts, q1);
                if q < q2 <= ts.len() {
                    sp_args(ts, q2, callee, acc.push(v))
                } else {
                    (Err(ErrV::Other), q2)
                }
            } else {
                sp_call_close(ts, q1, callee, acc.push(v))
            },
        }
    }
}

pub open spec fn sp_call_close(ts: Seq<Token>, q: int, callee: ExprV, args: Seq<ExprV>) -> (
    Result<ExprV, ErrV>,
    int,
) {
    match sp_expect(ts, q, TokenKind::RParen, "`)` to close the argument list"@) {
        (Err(e), q1) => (Err(e), q1),
        (Ok(close), q1) => (
            Ok(ExprV { kind: ExprKindV::Call(Box::new(callee), args), span: span_join(callee.span, close.span) }),
            q1,
        ),
    }
}

/// A literal, a list, a parenthesised expression (whose parentheses leave
/// no trace), or a bare word; `@name` and a pure `$name` are errors here.
pub open spec fn sp_primary(ts: Seq<Token>, p: int) -> (Result<ExprV, ErrV>, int)
    decreases ts.len() - p, 6nat,
{
    if !(stream_ok(ts) && 0 <= p < ts.len()) {
        (Err(ErrV::Other), p)
    } else {
        proof {
            lemma_next_sig(ts, p);
        }
        let t = tok_at(ts, p);
        if is_literal_kind(t.kind) {
            (Ok(lit_v(t.kind, t.span)), pos_after(ts, p))
        } else {
            match t.kind {
                TokenKind::LBracket => sp_list(ts, p),
                TokenKind::LParen => match sp_expr_bp(ts, next_sig(ts, p) + 1, 0) {
                    (Err(e), q) => (Err(e), q),
                    (Ok(inner), q) => match sp_expect(
                        ts,
                        q,
                        TokenKind::RParen,
                        "`)` to close the parenthesized expression"@,
                    ) {
                        (Err(e), q2) => (Err(e), q2),
                        (Ok(_), q2) => (Ok(inner), q2),
                    },
                },
                TokenKind::At => match sp_expect_name(ts, next_sig(ts, p) + 1, "a variable name"@) {
                    (Err(e), q) => (Err(e), q),
                    (Ok((name, _)), q) => (Err(ErrV::AtInExpression { name, span: t.span }), q),
                },
                TokenKind::BareWord(w) => if dollar_error(w@, true) {
                    (Err(ErrV::DollarInExpression { name: w@.drop_first(), span: t.span }), p)
                } else {
                    (Ok(bare_word_v(w@, t.span, true)), pos_after(ts, p))
                },
                TokenKind::Eof => (Err(ErrV::UnexpectedEof { context: "an expression"@, span: t.span }), p),
                _ => (
                    Err(
                        ErrV::UnexpectedToken {
                            expected: "an expression"@,
                            found: describe_text(t.kind),
                            span: t.span,
                        },
                    ),
                    p,
                ),
            }
        }
    }
}

pub open spec fn tok_res_v(r: Result<Token, SyntaxError>) -> Result<Token, ErrV> {
    match r {
        Ok(t) => Ok(t),
        Err(e) => Err(err_v(e)),
    }
}

pub open spec fn name_res_v(r: Result<(String, Span), SyntaxError>) -> Result<(Seq<char>, Span), ErrV> {
    match r {
        Ok((w, sp)) => Ok((w@, sp)),
        Err(e) => Err(err_v(e)),
    }
}

pub open spec fn opt_res_v(r: Result<Option<Expr>, SyntaxError>) -> Result<Option<ExprV>, ErrV> {
    match r {
        Ok(Some(e)) => Ok(Some(expr_v(e))),
        Ok(None) => Ok(None),
        Err(e) => Err(err_v(e)),
    }
}

proof fn lemma_literal_v(k: TokenKind, span: Span, e: Expr)
    requires
        is_literal_kind(k),
        literal_expr(k, span, e),
    ensures
        expr_v(e) == lit_v(k, span),
        strs_ok(e),
{
}

proof fn lemma_bare_word_v(w: Seq<char>, span: Span, in_expression: bool, e: Expr)
    requires
        bare_word_expr(w, span, in_expression, e),
    ensures
        expr_v(e) == bare_word_v(w, span, in_expression),
        strs_ok(e),
{
    reveal_with_fuel(strs_ok, 2);
    if !(w.contains('$') || (!in_expression && !is_name(w))) && w.contains('.') {
        if let ExprKind::Member(b, f, fsp) = e.kind {
            assert(expr_v(*b) == ExprV { kind: ExprKindV::Ident(before_dot(w)), span });
        }
    }
}

proof fn lemma_exprs_push(s: Seq<Expr>, e: Expr)
    ensures
        exprs_v(s.push(e)) == exprs_v(s).push(expr_v(e)),
        all_strs_ok(s.push(e)) == (all_strs_ok(s) && strs_ok(e)),
{
    assert(s.push(e).drop_last() =~= s);
}

impl Parser {
    // -- values & expressions ---------------------------------------------

    /// A value position: a leaf's value, a list element, or a call
    /// argument. A single token with no continuation is a plain value
    /// (string, number, ..., `$name` allowed); anything else is a full
    /// expression, where `$name` and `@name` are errors.
    fn parse_value(&mut self) -> (r: Result<Expr, SyntaxError>)
        requires
            old(self).wf(),
        ensures
            Parser::moved(*old(self), *final(self)),
            r is Ok ==> final(self).pos > old(self).pos,
            r matches Err(e) ==> parse_error(e),
            (res_v(r), final(self).pos as int) == sp_value(old(self).tokens@, old(self).pos as int),
            r matches Ok(e) ==> strs_ok(e),
        decreases old(self).tokens@.len() - old(self).pos, 11nat,
    {
        proof {
            lemma_next_sig(self.tokens@, self.pos as int);
        }
        if !self.peek2().kind.continues_expression() {
            match self.try_parse_single_token_value() {
                Ok(Some(expr)) => return Ok(expr),
                Err(e) => return Err(e),
                Ok(None) => {},
            }
        }
        self.parse_expr_bp(0)
    }

    /// `if`/`while` conditions and `for` bounds are computational
    /// positions: a bare word there looks up a variable, so these always go
    /// through full expression parsing.
    fn parse_condition(&mut self) -> (r: Result<Expr, SyntaxError>)
        requires
            old(self).wf(),
        ensures
            Parser::moved(*old(self), *final(self)),
            r is Ok ==> final(self).pos > old(self).pos,
            r matches Err(e) ==> parse_error(e),
            (res_v(r), final(self).pos as int) == sp_expr_bp(old(self).tokens@, old(self).pos as int, 0),
            r matches Ok(e) ==> strs_ok(e),
        decreases old(self).tokens@.len() - old(self).pos, 12nat,
    {
        self.parse_expr_bp(0)
    }

    fn try_parse_single_token_value(&mut self) -> (r: Result<Option<Expr>, SyntaxError>)
        requires
            old(self).wf(),
        ensures
            Parser::moved(*old(self), *final(self)),
            r matches Ok(Some(_)) ==> final(self).pos > old(self).pos,
            r matches Ok(None) ==> final(self).pos == old(self).pos,
            r matches Err(e) ==> parse_error(e),
            (opt_res_v(r), final(self).pos as int) == sp_single(old(self).tokens@, old(self).pos as int),
            r matches Ok(Some(e)) ==> strs_ok(e),
        decreases old(self).tokens@.len() - old(self).pos, 10nat,
    {
        proof {
            lemma_next_sig(self.tokens@, self.pos as int);
        }
        let tok = self.peek();
        if is_literal(&tok.kind) {
            let e = literal(tok);
            proof {
                lemma_literal_v(tok.kind, tok.span, e);
            }
            self.bump();
            return Ok(Some(e));
        }
        match &tok.kind {
            TokenKind::BareWord(w) => {
                let cs = word_chars(w);
                proof {
                    assert(word_fits(self.tokens@[self.at()]));
                }
                let e = match classify_bare_word(cs.as_slice(), tok.span, false) {
                    Ok(e) => e,
                    Err(e) => return Err(e),
                };
                proof {
                    lemma_bare_word_v(w@, tok.span, false, e);
                }
                self.bump();
                Ok(Some(e))
            },
            TokenKind::LBracket => match self.parse_list() {
                Ok(e) => Ok(Some(e)),
                Err(e) => Err(e),
            },
            _ => Ok(None),
        }
    }

    #[verifier::rlimit(60)]
    fn parse_list(&mut self) -> (r: Result<Expr, SyntaxError>)
        requires
            old(self).wf(),
        ensures
            Parser::moved(*old(self), *final(self)),
            r is Ok ==> final(self).pos > old(self).pos,
            r matches Ok(e) ==> e.kind is List,
            r matches Err(e) ==> parse_error(e),
            (res_v(r), final(self).pos as int) == sp_list(old(self).tokens@, old(self).pos as int),
            r matches Ok(e) ==> strs_ok(e),
        decreases old(self).tokens@.len() - old(self).pos, 4nat,
    {
        proof {
            lemma_next_sig(self.tokens@, self.pos as int);
        }
        let ghost ts = self.tokens@;
        let ghost p0 = self.pos as int;
        let open = match self.expect(TokenKind::LBracket, "`[`") {
            Ok(t) => t,
            Err(e) => return Err(e),
        };
        let mut items: Vec<Expr> = Vec::new();
        if !self.check(&TokenKind::RBracket) {
            loop
                invariant_except_break
                    sp_list(ts, p0) == sp_list_items(ts, self.pos as int, exprs_v(items@), open.span),
                invariant
                    Parser::moved(*old(self), *self),
                    self.pos > old(self).pos,
                    ts == self.tokens@,
                    p0 == old(self).pos,
                    all_strs_ok(items@),
                ensures
                    sp_list(ts, p0) == sp_list_close(ts, self.pos as int, exprs_v(items@), open.span),
                    Parser::moved(*old(self), *self),
                    self.pos > old(self).pos,
                    ts == self.tokens@,
                    all_strs_ok(items@),
                decreases self.tokens@.len() - self.pos,
            {
                let v = match self.parse_value() {
                    Ok(v) => v,
                    Err(e) => return Err(e),
                };
                proof {
                    lemma_exprs_push(items@, v);
                }
                items.push(v);
                if self.check(&TokenKind::Comma) {
                    self.bump();
                    if self.check(&TokenKind::RBracket) {
                        break;  // trailing comma
                    }
                } else {
                    break;
                }
            }
        }
        let close = match self.expect(TokenKind::RBracket, "`]` to close the list") {
            Ok(t) => t,
            Err(e) => return Err(e),
        };
        assert(all_strs_ok(items@));
        let list = Expr::new(ExprKind::List(items), open.span.join(close.span));
        assert(strs_ok(list));
        Ok(list)
    }

    /// A string literal: quoted (verbatim) or bare (with interpolation).
    fn parse_str_value(&mut self, context: &str) -> (r: Result<StrLit, SyntaxError>)
        requires
            old(self).wf(),
        ensures
            Parser::moved(*old(self), *final(self)),
            r is Ok ==> final(self).pos > old(self).pos,
            old(self).cur().kind matches TokenKind::QuotedString(q) ==> (r matches Ok(l) ==> (l
                matches StrLit::Quoted(t) && t@ == q@)),
            old(self).cur().kind matches TokenKind::BareWord(w) ==> (r matches Ok(l) ==> (l
                matches StrLit::Bare(parts) && interpolated(
                w@,
                old(self).cur().span.start as int,
                parts@,
            ))),
            r is Ok <==> (old(self).cur().kind is QuotedString || old(self).cur().kind is BareWord),
            r matches Err(e) ==> parse_error(e),
            (str_res_v(r), final(self).pos as int) == sp_str_value(
                old(self).tokens@,
                old(self).pos as int,
                context@,
            ),
    {
        proof {
            lemma_next_sig(self.tokens@, self.pos as int);
        }
        let tok = self.peek();
        match &tok.kind {
            TokenKind::QuotedString(s) => {
                let q = s.clone();
                self.bump();
                Ok(StrLit::Quoted(q))
            },
            TokenKind::BareWord(w) => {
                let cs = word_chars(w);
                proof {
                    assert(word_fits(self.tokens@[self.at()]));
                }
                let lit = split_interpolated(cs.as_slice(), tok.span);
                self.bump();
                Ok(lit)
            },
            TokenKind::Eof => Err(SyntaxError::UnexpectedEof { context: owned(context), span: tok.span }),
            other => Err(SyntaxError::UnexpectedToken {
                expected: owned(context),
                found: other.describe(),
                span: tok.span,
            }),
        }
    }

    #[verifier::rlimit(60)]
    fn parse_expr_bp(&mut self, min_bp: u8) -> (r: Result<Expr, SyntaxError>)
        requires
            old(self).wf(),
        ensures
            Parser::moved(*old(self), *final(self)),
            r is Ok ==> final(self).pos > old(self).pos,
            r matches Err(e) ==> parse_error(e),
            (res_v(r), final(self).pos as int) == sp_expr_bp(
                old(self).tokens@,
                old(self).pos as int,
                min_bp,
            ),
            r matches Ok(e) ==> strs_ok(e),
        decreases old(self).tokens@.len() - old(self).pos, 9nat,
    {
        let ghost ts = self.tokens@;
        let ghost p0 = self.pos as int;
        let mut lhs = match self.parse_unary() {
            Ok(e) => e,
            Err(e) => return Err(e),
        };
        loop
            invariant
                Parser::moved(*old(self), *self),
                self.pos > old(self).pos,
                ts == self.tokens@,
                p0 == old(self).pos,
                strs_ok(lhs),
                sp_expr_bp(ts, p0, min_bp) == sp_bp_loop(ts, self.pos as int, min_bp, expr_v(lhs)),
            decreases self.tokens@.len() - self.pos,
        {
            proof {
                lemma_next_sig(self.tokens@, self.pos as int);
            }
            match binop(&self.peek().kind) {
                None => return Ok(lhs),
                Some((op, l_bp, r_bp)) => {
                    if l_bp < min_bp {
                        return Ok(lhs);
                    }
                    self.bump();
                    let rhs = match self.parse_expr_bp(r_bp) {
                        Ok(e) => e,
                        Err(e) => return Err(e),
                    };
                    let span = lhs.span.join(rhs.span);
                    lhs = Expr::new(ExprKind::Binary(op, Box::new(lhs), Box::new(rhs)), span);
                },
            }
        }
    }

    fn parse_unary(&mut self) -> (r: Result<Expr, SyntaxError>)
        requires
            old(self).wf(),
        ensures
            Parser::moved(*old(self), *final(self)),
            r is Ok ==> final(self).pos > old(self).pos,
            r matches Err(e) ==> parse_error(e),
            (res_v(r), final(self).pos as int) == sp_unary(old(self).tokens@, old(self).pos as int),
            r matches Ok(e) ==> strs_ok(e),
        decreases old(self).tokens@.len() - old(self).pos, 8nat,
    {
        proof {
            lemma_next_sig(self.tokens@, self.pos as int);
        }
        let op = match &self.peek().kind {
            TokenKind::Minus => UnOp::Neg,
            TokenKind::Not => UnOp::Not,
            _ => return self.parse_postfix(),
        };
        let t = self.bump();
        let operand = match self.parse_unary() {
            Ok(e) => e,
            Err(e) => return Err(e),
        };
        let span = t.span.join(operand.span);
        Ok(Expr::new(ExprKind::Unary(op, Box::new(operand)), span))
    }

    #[verifier::spinoff_prover]
    #[verifier::rlimit(60)]
    fn parse_postfix(&mut self) -> (r: Result<Expr, SyntaxError>)
        requires
            old(self).wf(),
        ensures
            Parser::moved(*old(self), *final(self)),
            r is Ok ==> final(self).pos > old(self).pos,
            r matches Err(e) ==> parse_error(e),
            (res_v(r), final(self).pos as int) == sp_postfix(old(self).tokens@, old(self).pos as int),
            r matches Ok(e) ==> strs_ok(e),
        decreases old(self).tokens@.len() - old(self).pos, 7nat,
    {
        let ghost ts = self.tokens@;
        let ghost p0 = self.pos as int;
        let mut expr = match self.parse_primary() {
            Ok(e) => e,
            Err(e) => return Err(e),
        };
        while self.check(&TokenKind::LParen)
            invariant
                Parser::moved(*old(self), *self),
                self.pos > old(self).pos,
                ts == self.tokens@,
                p0 == old(self).pos,
                strs_ok(expr),
                sp_postfix(ts, p0) == sp_postfix_loop(ts, self.pos as int, expr_v(expr)),
            decreases self.tokens@.len() - self.pos,
        {
            expr = match self.parse_call_from(expr) {
                Ok(e) => e,
                Err(e) => return Err(e),
            };
        }
        Ok(expr)
    }

    #[verifier::spinoff_prover]
    #[verifier::rlimit(100)]
    fn parse_call_from(&mut self, callee: Expr) -> (r: Result<Expr, SyntaxError>)
        requires
            old(self).wf(),
            strs_ok(callee),
        ensures
            Parser::moved(*old(self), *final(self)),
            r is Ok ==> final(self).pos > old(self).pos,
            r matches Ok(e) ==> e.kind matches ExprKind::Call(c, _) && *c == callee,
            r matches Err(e) ==> parse_error(e),
            (res_v(r), final(self).pos as int) == sp_call_from(
                old(self).tokens@,
                old(self).pos as int,
                expr_v(callee),
            ),
            r matches Ok(e) ==> strs_ok(e),
        decreases old(self).tokens@.len() - old(self).pos, 5nat,
    {
        proof {
            lemma_next_sig(self.tokens@, self.pos as int);
        }
        let ghost ts = self.tokens@;
        let ghost p0 = self.pos as int;
        let ghost cv = expr_v(callee);
        match self.expect(TokenKind::LParen, "`(`") {
            Ok(_) => {},
            Err(e) => return Err(e),
        }
        let mut args: Vec<Expr> = Vec::new();
        if !self.check(&TokenKind::RParen) {
            loop
                invariant_except_break
                    sp_call_from(ts, p0, cv) == sp_args(ts, self.pos as int, cv, exprs_v(args@)),
                invariant
                    Parser::moved(*old(self), *self),
                    self.pos > old(self).pos,
                    ts == self.tokens@,
                    p0 == old(self).pos,
                    cv == expr_v(callee),
                    all_strs_ok(args@),
                ensures
                    sp_call_from(ts, p0, cv) == sp_call_close(ts, self.pos as int, cv, exprs_v(args@)),
                    Parser::moved(*old(self), *self),
                    self.pos > old(self).pos,
                    ts == self.tokens@,
                    all_strs_ok(args@),
                decreases self.tokens@.len() - self.pos,
            {
                let v = match self.parse_value() {
                    Ok(v) => v,
                    Err(e) => return Err(e),
                };
                proof {
                    lemma_exprs_push(args@, v);
                }
                args.push(v);
                if self.check(&TokenKind::Comma) {
                    self.bump();
                } else {
                    break;
                }
            }
        }
        let close = match self.expect(TokenKind::RParen, "`)` to close the argument list") {
            Ok(t) => t,
            Err(e) => return Err(e),
        };
        let span = callee.span.join(close.span);
        assert(all_strs_ok(args@));
        let call = Expr::new(ExprKind::Call(Box::new(callee), args), span);
        assert(strs_ok(call));
        Ok(call)
    }

    fn parse_primary(&mut self) -> (r: Result<Expr, SyntaxError>)
        requires
            old(self).wf(),
        ensures
            Parser::moved(*old(self), *final(self)),
            r is Ok ==> final(self).pos > old(self).pos,
            r matches Err(e) ==> parse_error(e),
            (res_v(r), final(self).pos as int) == sp_primary(old(self).tokens@, old(self).pos as int),
            r matches Ok(e) ==> strs_ok(e),
        decreases old(self).tokens@.len() - old(self).pos, 6nat,
    {
        proof {
            lemma_next_sig(self.tokens@, self.pos as int);
        }
        let tok = self.peek();
        if is_literal(&tok.kind) {
            let e = literal(tok);
            proof {
                lemma_literal_v(tok.kind, tok.span, e);
            }
            self.bump();
            return Ok(e);
        }
        match &tok.kind {
            TokenKind::LBracket => self.parse_list(),
            TokenKind::LParen => {
                self.bump();
                let inner = match self.parse_expr_bp(0) {
                    Ok(e) => e,
                    Err(e) => return Err(e),
                };
                match self.expect(TokenKind::RParen, "`)` to close the parenthesized expression") {
                    Ok(_) => Ok(inner),
                    Err(e) => Err(e),
                }
            },
            TokenKind::At => {
                let span = tok.span;
                self.bump();
                match self.expect_name("a variable name") {
                    Ok((name, _)) => Err(SyntaxError::AtInExpression { name, span }),
                    Err(e) => Err(e),
                }
            },
            TokenKind::BareWord(w) => {
                let cs = word_chars(w);
                proof {
                    assert(word_fits(self.tokens@[self.at()]));
                }
                let expr = match classify_bare_word(cs.as_slice(), tok.span, true) {
                    Ok(e) => e,
                    Err(e) => return Err(e),
                };
                proof {
                    lemma_bare_word_v(w@, tok.span, true, expr);
                }
                self.bump();
                Ok(expr)
            },
            TokenKind::Eof => Err(SyntaxError::UnexpectedEof { context: owned("an expression"), span: tok.span }),
            other => Err(SyntaxError::UnexpectedToken {
                expected: owned("an expression"),
                found: other.describe(),
                span: tok.span,
            }),
        }
    }
}

fn is_literal(k: &TokenKind) -> (b: bool)
    ensures
        b == is_literal_kind(*k),
{
    matches!(
        k,
        TokenKind::Int(_) | TokenKind::Float(_) | TokenKind::True | TokenKind::False | TokenKind::Nil
            | TokenKind::ColorLit(_) | TokenKind::DurationLit(..) | TokenKind::QuotedString(_)
    )
}


impl Parser {
    fn at_stop(&self, stop: Stop) -> (b: bool)
        requires
            self.wf(),
        ensures
            b == stops(self.cur().kind, stop),
    {
        match stop {
            Stop::IfArm => self.check(&TokenKind::Elseif) || self.check(&TokenKind::Else)
                || self.check(&TokenKind::End),
            Stop::End => self.check(&TokenKind::End),
            Stop::Brace => self.check(&TokenKind::RBrace),
            Stop::Input => self.at_eof(),
        }
    }

    fn at_eof(&self) -> (b: bool)
        requires
            self.wf(),
        ensures
            b == (self.cur().kind is Eof),
    {
        matches!(self.peek().kind, TokenKind::Eof)
    }

    /// Whether at least one empty line separates the previous item (and its
    /// trailing comment) from what comes next (its leading comments first).
    fn blank_before(&self, items: &Vec<Item>, leading: &Vec<Comment>) -> (b: bool)
        requires
            self.wf(),
        ensures
            items@.len() == 0 ==> !b,
            b == crate::grammar::blank_before(
                self.tokens@,
                self.src@,
                items_v(items@),
                comments_v(leading@),
                self.pos as int,
            ),
    {
        let n = items.len();
        proof {
            lemma_items_len(items@);
        }
        if n == 0 {
            return false;
        }
        proof {
            lemma_items_replace_last(items@, items@.last());
        }
        let prev = &items[n - 1];
        let prev_end = match &prev.trivia.trailing {
            Some(c) => c.span.end,
            None => prev.span.end,
        };
        let next_start = if leading.len() > 0 {
            leading[0].span.start
        } else {
            self.current_span().start
        };
        if prev_end > next_start {
            return false;
        }
        self.newlines_between(prev_end, next_start) >= 2
    }

    /// Parses items until the current token is one of `stop` (or `Eof`),
    /// returning them and the comments after the last one.
    fn parse_block(&mut self, stop: Stop) -> (r: Result<(Vec<Item>, Vec<Comment>), SyntaxError>)
        requires
            old(self).wf(),
        ensures
            Parser::moved(*old(self), *final(self)),
            r is Ok ==> stops(final(self).cur().kind, stop) || final(self).cur().kind is Eof,
            r matches Err(e) ==> parse_error(e),
            (block_res_v(r), final(self).pos as int) == sp_block(
                old(self).tokens@,
                old(self).src@,
                old(self).pos as int,
                stop,
                seq![],
            ),
            r matches Ok((items, _)) ==> items_strs_ok(items@),
        decreases old(self).tokens@.len() - old(self).pos, 31nat,
    {
        let ghost ts = self.tokens@;
        let ghost src = self.src@;
        let ghost p0 = self.pos as int;
        let mut items: Vec<Item> = Vec::new();
        proof {
            assert(items_v(items@) =~= seq![]);
        }
        loop
            invariant
                Parser::moved(*old(self), *self),
                ts == self.tokens@,
                src == self.src@,
                p0 == old(self).pos,
                sp_block(ts, src, p0, stop, seq![]) == sp_block(
                    ts,
                    src,
                    self.pos as int,
                    stop,
                    items_v(items@),
                ),
                items_strs_ok(items@),
            decreases self.tokens@.len() - self.pos,
        {
            self.attach_trailing(&mut items);
            let leading = self.collect_leading();
            proof {
                lemma_next_sig(self.tokens@, self.pos as int);
            }
            if self.at_stop(stop) || self.at_eof() {
                return Ok((items, leading));
            }
            let blank = self.blank_before(&items, &leading);
            let mut item = match self.parse_item(leading) {
                Ok(it) => it,
                Err(e) => return Err(e),
            };
            item.trivia.blank_line_before = blank;
            proof {
                lemma_items_push(items@, item);
            }
            items.push(item);
        }
    }

    fn parse_item(&mut self, leading: Vec<Comment>) -> (r: Result<Item, SyntaxError>)
        requires
            old(self).wf(),
        ensures
            Parser::moved(*old(self), *final(self)),
            r is Ok ==> final(self).pos > old(self).pos,
            r matches Err(e) ==> parse_error(e),
            (item_res_v(r), final(self).pos as int) == sp_item(
                old(self).tokens@,
                old(self).src@,
                old(self).pos as int,
                comments_v(leading@),
            ),
            r matches Ok(it) ==> item_strs_ok(it),
        decreases old(self).tokens@.len() - old(self).pos, 30nat,
    {
        proof {
            lemma_next_sig(self.tokens@, self.pos as int);
        }
        let start = self.current_span();
        let kind_r = match &self.peek().kind {
            TokenKind::At => self.parse_vardef(),
            TokenKind::If => self.parse_if(),
            TokenKind::For => self.parse_for(),
            TokenKind::While => self.parse_while(),
            TokenKind::Local => self.parse_local(),
            TokenKind::Return => self.parse_return(),
            TokenKind::Fn => self.parse_fndef(),
            TokenKind::Script => self.parse_script(),
            TokenKind::Include => self.parse_include(),
            TokenKind::BareWord(_) => self.parse_leaf_node_or_call(),
            TokenKind::Eof => {
                return Err(
                    SyntaxError::UnexpectedEof { context: owned("a node, leaf, or statement"), span: start },
                );
            },
            other => {
                return Err(
                    SyntaxError::UnexpectedToken {
                        expected: owned("a node, leaf, or statement"),
                        found: other.describe(),
                        span: start,
                    },
                );
            },
        };
        let kind = match kind_r {
            Ok(k) => k,
            Err(e) => return Err(e),
        };
        let last = self.last_index();
        let before = if self.pos > 0 { self.pos - 1 } else { 0 };
        let end = self.tokens[if before < last { before } else { last }].span;
        let span = start.join(end);
        let span = Span { start: start.start, end: span.end };
        Ok(Item { kind, span, trivia: Trivia { leading, trailing: None, blank_line_before: false } })
    }

    // -- statements ---------------------------------------------------------

    fn parse_vardef(&mut self) -> (r: Result<ItemKind, SyntaxError>)
        requires
            old(self).wf(),
            old(self).cur().kind is At,
        ensures
            Parser::moved(*old(self), *final(self)),
            r is Ok ==> final(self).pos > old(self).pos,
            r matches Err(e) ==> parse_error(e),
            (kind_res_v(r), final(self).pos as int) == sp_vardef(old(self).tokens@, old(self).pos as int),
            r matches Ok(k) ==> kind_strs_ok(k),
    {
        self.bump();  // @
        let (name, name_span) = match self.expect_name("a variable name after `@`") {
            Ok(x) => x,
            Err(e) => return Err(e),
        };
        match self.expect(TokenKind::Eq, "`=` after the variable name") {
            Ok(_) => {},
            Err(e) => return Err(e),
        }
        let value = match self.parse_value() {
            Ok(v) => v,
            Err(e) => return Err(e),
        };
        Ok(ItemKind::VarDef(VarDef { name, name_span, value }))
    }

    #[verifier::spinoff_prover]
    #[verifier::rlimit(100)]
    fn parse_if(&mut self) -> (r: Result<ItemKind, SyntaxError>)
        requires
            old(self).wf(),
            old(self).cur().kind is If,
        ensures
            Parser::moved(*old(self), *final(self)),
            r is Ok ==> final(self).pos > old(self).pos,
            r matches Err(e) ==> parse_error(e),
            (kind_res_v(r), final(self).pos as int) == sp_if(
                old(self).tokens@,
                old(self).src@,
                old(self).pos as int,
            ),
            r matches Ok(k) ==> kind_strs_ok(k),
        decreases old(self).tokens@.len() - old(self).pos, 28nat,
    {
        let ghost ts = self.tokens@;
        let ghost src = self.src@;
        let ghost p0 = self.pos as int;
        self.bump();  // if
        let cond = match self.parse_condition() {
            Ok(c) => c,
            Err(e) => return Err(e),
        };
        match self.expect_then() {
            Ok(()) => {},
            Err(e) => return Err(e),
        }
        let then_body = match self.parse_block(Stop::IfArm) {
            Ok((b, _)) => b,
            Err(e) => return Err(e),
        };
        let elifs = match self.parse_elifs() {
            Ok(v) => v,
            Err(e) => return Err(e),
        };
        let else_body = if self.check(&TokenKind::Else) {
            self.bump();
            match self.parse_block(Stop::End) {
                Ok((b, _)) => Some(b),
                Err(e) => return Err(e),
            }
        } else {
            None
        };
        match self.expect(TokenKind::End, "`end`") {
            Ok(_) => {},
            Err(e) => return Err(e),
        }
        Ok(ItemKind::If(IfStmt { cond, then_body, elifs, else_body }))
    }

    /// The `elseif` arms of an `if`.
    fn parse_elifs(&mut self) -> (r: Result<Vec<(Expr, Vec<Item>)>, SyntaxError>)
        requires
            old(self).wf(),
        ensures
            Parser::moved(*old(self), *final(self)),
            r matches Err(e) ==> parse_error(e),
            (elifs_res_v(r), final(self).pos as int) == sp_elifs(
                old(self).tokens@,
                old(self).src@,
                old(self).pos as int,
                seq![],
            ),
            r matches Ok(v) ==> elifs_strs_ok(v@),
        decreases old(self).tokens@.len() - old(self).pos, 27nat,
    {
        let ghost ts = self.tokens@;
        let ghost src = self.src@;
        let ghost p0 = self.pos as int;
        let mut elifs: Vec<(Expr, Vec<Item>)> = Vec::new();
        proof {
            assert(elifs_v(elifs@) =~= seq![]);
        }
        while self.check(&TokenKind::Elseif)
            invariant
                Parser::moved(*old(self), *self),
                ts == self.tokens@,
                src == self.src@,
                p0 == old(self).pos,
                sp_elifs(ts, src, p0, seq![]) == sp_elifs(ts, src, self.pos as int, elifs_v(elifs@)),
                elifs_strs_ok(elifs@),
            decreases self.tokens@.len() - self.pos,
        {
            self.bump();
            let c = match self.parse_condition() {
                Ok(c) => c,
                Err(e) => return Err(e),
            };
            match self.expect_then() {
                Ok(()) => {},
                Err(e) => return Err(e),
            }
            let body = match self.parse_block(Stop::IfArm) {
                Ok((b, _)) => b,
                Err(e) => return Err(e),
            };
            proof {
                lemma_elifs_push(elifs@, (c, body));
            }
            elifs.push((c, body));
        }
        Ok(elifs)
    }

    /// `then` is no token kind of its own: it is a bare word, a keyword only
    /// here.
    fn expect_then(&mut self) -> (r: Result<(), SyntaxError>)
        requires
            old(self).wf(),
        ensures
            Parser::moved(*old(self), *final(self)),
            r is Ok ==> final(self).pos > old(self).pos,
            r matches Err(e) ==> parse_error(e),
            (unit_res_v(r), final(self).pos as int) == sp_then(old(self).tokens@, old(self).pos as int),
    {
        proof {
            lemma_next_sig(self.tokens@, self.pos as int);
        }
        let tok = self.peek();
        match &tok.kind {
            TokenKind::BareWord(w) => {
                let cs = word_chars(w);
                let is_then = crate::text::is_text(cs.as_slice(), "then");
                if is_then {
                    self.bump();
                    Ok(())
                } else {
                    Err(SyntaxError::UnexpectedToken {
                        expected: owned("`then`"),
                        found: tok.kind.describe(),
                        span: tok.span,
                    })
                }
            },
            TokenKind::Eof => Err(SyntaxError::UnexpectedEof { context: owned("`then`"), span: tok.span }),
            other => Err(SyntaxError::UnexpectedToken {
                expected: owned("`then`"),
                found: other.describe(),
                span: tok.span,
            }),
        }
    }

    #[verifier::spinoff_prover]
    #[verifier::rlimit(100)]
    fn parse_for(&mut self) -> (r: Result<ItemKind, SyntaxError>)
        requires
            old(self).wf(),
            old(self).cur().kind is For,
        ensures
            Parser::moved(*old(self), *final(self)),
            r is Ok ==> final(self).pos > old(self).pos,
            r matches Err(e) ==> parse_error(e),
            (kind_res_v(r), final(self).pos as int) == sp_for(
                old(self).tokens@,
                old(self).src@,
                old(self).pos as int,
            ),
            r matches Ok(k) ==> kind_strs_ok(k),
        decreases old(self).tokens@.len() - old(self).pos, 28nat,
    {
        self.bump();  // for
        let (var, var_span) = match self.expect_name("a loop variable name") {
            Ok(x) => x,
            Err(e) => return Err(e),
        };
        match self.expect(TokenKind::Eq, "`=` after the loop variable") {
            Ok(_) => {},
            Err(e) => return Err(e),
        }
        let start = match self.parse_condition() {
            Ok(c) => c,
            Err(e) => return Err(e),
        };
        match self.expect(TokenKind::Comma, "`,` between the loop bounds") {
            Ok(_) => {},
            Err(e) => return Err(e),
        }
        let stop = match self.parse_condition() {
            Ok(c) => c,
            Err(e) => return Err(e),
        };
        let step = if self.check(&TokenKind::Comma) {
            self.bump();
            match self.parse_condition() {
                Ok(c) => Some(c),
                Err(e) => return Err(e),
            }
        } else {
            None
        };
        match self.expect(TokenKind::Do, "`do`") {
            Ok(_) => {},
            Err(e) => return Err(e),
        }
        let body = match self.parse_block(Stop::End) {
            Ok((b, _)) => b,
            Err(e) => return Err(e),
        };
        match self.expect(TokenKind::End, "`end`") {
            Ok(_) => {},
            Err(e) => return Err(e),
        }
        Ok(ItemKind::For(ForStmt { var, var_span, start, stop, step, body }))
    }

    #[verifier::rlimit(60)]
    fn parse_while(&mut self) -> (r: Result<ItemKind, SyntaxError>)
        requires
            old(self).wf(),
            old(self).cur().kind is While,
        ensures
            Parser::moved(*old(self), *final(self)),
            r is Ok ==> final(self).pos > old(self).pos,
            r matches Err(e) ==> parse_error(e),
            (kind_res_v(r), final(self).pos as int) == sp_while(
                old(self).tokens@,
                old(self).src@,
                old(self).pos as int,
            ),
            r matches Ok(k) ==> kind_strs_ok(k),
        decreases old(self).tokens@.len() - old(self).pos, 28nat,
    {
        self.bump();  // while
        let cond = match self.parse_condition() {
            Ok(c) => c,
            Err(e) => return Err(e),
        };
        match self.expect(TokenKind::Do, "`do`") {
            Ok(_) => {},
            Err(e) => return Err(e),
        }
        let body = match self.parse_block(Stop::End) {
            Ok((b, _)) => b,
            Err(e) => return Err(e),
        };
        match self.expect(TokenKind::End, "`end`") {
            Ok(_) => {},
            Err(e) => return Err(e),
        }
        Ok(ItemKind::While(WhileStmt { cond, body }))
    }

    fn parse_local(&mut self) -> (r: Result<ItemKind, SyntaxError>)
        requires
            old(self).wf(),
            old(self).cur().kind is Local,
        ensures
            Parser::moved(*old(self), *final(self)),
            r is Ok ==> final(self).pos > old(self).pos,
            r matches Err(e) ==> parse_error(e),
            (kind_res_v(r), final(self).pos as int) == sp_local(old(self).tokens@, old(self).pos as int),
            r matches Ok(k) ==> kind_strs_ok(k),
    {
        self.bump();  // local
        let (name, name_span) = match self.expect_name("a local variable name") {
            Ok(x) => x,
            Err(e) => return Err(e),
        };
        match self.expect(TokenKind::Eq, "`=` after the local variable name") {
            Ok(_) => {},
            Err(e) => return Err(e),
        }
        let value = match self.parse_value() {
            Ok(v) => v,
            Err(e) => return Err(e),
        };
        Ok(ItemKind::Local(LocalStmt { name, name_span, value }))
    }

    fn parse_return(&mut self) -> (r: Result<ItemKind, SyntaxError>)
        requires
            old(self).wf(),
            old(self).cur().kind is Return,
        ensures
            Parser::moved(*old(self), *final(self)),
            r is Ok ==> final(self).pos > old(self).pos,
            r matches Err(e) ==> parse_error(e),
            (kind_res_v(r), final(self).pos as int) == sp_return(old(self).tokens@, old(self).pos as int),
            r matches Ok(k) ==> kind_strs_ok(k),
    {
        self.bump();  // return
        proof {
            lemma_next_sig(self.tokens@, self.pos as int);
        }
        let ends_statement = matches!(
            self.peek().kind,
            TokenKind::End | TokenKind::Else | TokenKind::Elseif | TokenKind::Eof
        );
        let value = if ends_statement {
            None
        } else {
            match self.parse_value() {
                Ok(v) => Some(v),
                Err(e) => return Err(e),
            }
        };
        Ok(ItemKind::Return(ReturnStmt { value }))
    }

    /// A function's parameter names, separated by `,`.
    fn parse_params(&mut self) -> (r: Result<Vec<String>, SyntaxError>)
        requires
            old(self).wf(),
        ensures
            Parser::moved(*old(self), *final(self)),
            r is Ok ==> final(self).pos > old(self).pos,
            r matches Err(e) ==> parse_error(e),
            (names_res_v(r), final(self).pos as int) == sp_params(
                old(self).tokens@,
                old(self).pos as int,
                seq![],
            ),
    {
        let ghost ts = self.tokens@;
        let ghost p0 = self.pos as int;
        let mut params: Vec<String> = Vec::new();
        proof {
            assert(names_v(params@) =~= seq![]);
        }
        loop
            invariant
                Parser::moved(*old(self), *self),
                ts == self.tokens@,
                p0 == old(self).pos,
                params@.len() > 0 ==> self.pos > old(self).pos,
                sp_params(ts, p0, seq![]) == sp_params(ts, self.pos as int, names_v(params@)),
            decreases self.tokens@.len() - self.pos,
        {
            proof {
                lemma_next_sig(self.tokens@, self.pos as int);
            }
            let (p, _) = match self.expect_name("a parameter name") {
                Ok(x) => x,
                Err(e) => return Err(e),
            };
            proof {
                assert(names_v(params@.push(p)) =~= names_v(params@).push(p@));
            }
            params.push(p);
            if self.check(&TokenKind::Comma) {
                self.bump();
            } else {
                return Ok(params);
            }
        }
    }

    #[verifier::rlimit(60)]
    fn parse_fndef(&mut self) -> (r: Result<ItemKind, SyntaxError>)
        requires
            old(self).wf(),
            old(self).cur().kind is Fn,
        ensures
            Parser::moved(*old(self), *final(self)),
            r is Ok ==> final(self).pos > old(self).pos,
            r matches Err(e) ==> parse_error(e),
            (kind_res_v(r), final(self).pos as int) == sp_fndef(
                old(self).tokens@,
                old(self).src@,
                old(self).pos as int,
            ),
            r matches Ok(k) ==> kind_strs_ok(k),
        decreases old(self).tokens@.len() - old(self).pos, 28nat,
    {
        let ghost ts = self.tokens@;
        self.bump();  // fn
        let (name, name_span) = match self.expect_name("a function name") {
            Ok(x) => x,
            Err(e) => return Err(e),
        };
        match self.expect(TokenKind::LParen, "`(` after the function name") {
            Ok(_) => {},
            Err(e) => return Err(e),
        }
        let params = if self.check(&TokenKind::RParen) {
            let v: Vec<String> = Vec::new();
            proof {
                assert(names_v(v@) =~= seq![]);
            }
            v
        } else {
            match self.parse_params() {
                Ok(v) => v,
                Err(e) => return Err(e),
            }
        };
        match self.expect(TokenKind::RParen, "`)` after the parameter list") {
            Ok(_) => {},
            Err(e) => return Err(e),
        }
        match self.expect(TokenKind::LBrace, "`{` to start the function body") {
            Ok(_) => {},
            Err(e) => return Err(e),
        }
        let body = match self.parse_block(Stop::Brace) {
            Ok((b, _)) => b,
            Err(e) => return Err(e),
        };
        match self.expect(TokenKind::RBrace, "`}` to close the function body") {
            Ok(_) => {},
            Err(e) => return Err(e),
        }
        Ok(ItemKind::FnDef(FnDef { name, name_span, params, body }))
    }

    /// The source text between byte offsets `from` and `to`.
    fn source_slice(&self, from: u32, to: u32) -> (s: String)
        requires
            self.wf(),
        ensures
            s@ == crate::grammar::source_slice(self.src@, from as int, to as int),
    {
        let a = crate::text::char_index_of_byte(self.src.as_slice(), self.offs.as_slice(), from);
        let b = crate::text::char_index_of_byte(self.src.as_slice(), self.offs.as_slice(), to);
        proof {
            match a {
                Some(i) => lemma_char_at_byte_some(self.src@, self.offs@, from as int, i as int),
                None => lemma_char_at_byte_none(self.src@, self.offs@, from as int),
            }
            match b {
                Some(i) => lemma_char_at_byte_some(self.src@, self.offs@, to as int, i as int),
                None => lemma_char_at_byte_none(self.src@, self.offs@, to as int),
            }
        }
        match (a, b) {
            (Some(a), Some(b)) => {
                if a <= b {
                    crate::text::string_of_range(self.src.as_slice(), a, b)
                } else {
                    String::new()
                }
            },
            _ => String::new(),
        }
    }

    /// `script { ... }`: the body is the raw source between the braces,
    /// never read as this language. Braces are counted over the tokens
    /// already lexed, which still balance inside the script, since
    /// comments and quoted strings are single tokens.
    fn parse_script(&mut self) -> (r: Result<ItemKind, SyntaxError>)
        requires
            old(self).wf(),
            old(self).cur().kind is Script,
        ensures
            Parser::moved(*old(self), *final(self)),
            r is Ok ==> final(self).pos > old(self).pos,
            r matches Err(e) ==> parse_error(e),
            (kind_res_v(r), final(self).pos as int) == sp_script(
                old(self).tokens@,
                old(self).src@,
                old(self).pos as int,
            ),
            r matches Ok(k) ==> kind_strs_ok(k),
    {
        let ghost ts = self.tokens@;
        let script_start = self.current_span();
        self.bump();  // script
        let body_start = match self.expect(TokenKind::LBrace, "`{` to start the script body") {
            Ok(open) => open.span.end,
            Err(e) => return Err(e),
        };
        let ghost q1 = self.pos as int;
        assert(sp_script(ts, self.src@, old(self).pos as int) == sp_script_body(
            ts,
            self.src@,
            q1,
            script_start,
            body_start,
        ));
        let last = self.last_index();
        let mut depth: usize = 1;
        let inner_end;
        loop
            invariant_except_break
                scan_close(ts, q1, 1) == scan_close(ts, self.pos as int, depth as nat),
                1 <= depth <= self.pos - q1 + 1,
            invariant
                Parser::moved(*old(self), *self),
                self.pos > old(self).pos,
                1 <= q1 <= self.pos,
                ts == self.tokens@,
                last == self.tokens@.len() - 1,
                sp_script(ts, self.src@, old(self).pos as int) == sp_script_body(
                    ts,
                    self.src@,
                    q1,
                    script_start,
                    body_start,
                ),
            ensures
                scan_close(ts, q1, 1) == Some(self.pos - 1),
                inner_end == ts[self.pos - 1].span.start,
                Parser::moved(*old(self), *self),
                self.pos > old(self).pos,
                ts == self.tokens@,
            decreases self.tokens@.len() - self.pos,
        {
            if matches!(self.tokens[self.pos].kind, TokenKind::Eof) {
                proof {
                    assert(self.pos == last);
                }
                return Err(
                    SyntaxError::UnexpectedEof {
                        context: owned("`}` to close the `script` body"),
                        span: script_start,
                    },
                );
            }
            proof {
                assert(self.pos < last);
            }
            if matches!(self.tokens[self.pos].kind, TokenKind::LBrace) {
                depth = depth + 1;
            } else if matches!(self.tokens[self.pos].kind, TokenKind::RBrace) {
                if depth == 1 {
                    inner_end = self.tokens[self.pos].span.start;
                    self.pos = self.pos + 1;
                    break;
                }
                depth = depth - 1;
            }
            self.pos = self.pos + 1;
        }
        let raw = self.source_slice(body_start, inner_end);
        Ok(ItemKind::Script(ScriptBlock { raw, inner_span: Span { start: body_start, end: inner_end } }))
    }

    fn parse_include(&mut self) -> (r: Result<ItemKind, SyntaxError>)
        requires
            old(self).wf(),
            old(self).cur().kind is Include,
        ensures
            Parser::moved(*old(self), *final(self)),
            r is Ok ==> final(self).pos > old(self).pos,
            r matches Err(e) ==> parse_error(e),
            (kind_res_v(r), final(self).pos as int) == sp_include(old(self).tokens@, old(self).pos as int),
            r matches Ok(k) ==> kind_strs_ok(k),
    {
        self.bump();  // include
        let path_span = self.current_span();
        let path = match self.parse_str_value("an include path") {
            Ok(p) => p,
            Err(e) => return Err(e),
        };
        Ok(ItemKind::Include(IncludeStmt { path, path_span }))
    }

    /// The body of a node whose `{` has just been consumed.
    fn parse_node_body(
        &mut self,
        name: String,
        name_span: Span,
        header: Option<HeaderValue>,
        header_span: Option<Span>,
    ) -> (r: Result<ItemKind, SyntaxError>)
        requires
            old(self).wf(),
        ensures
            Parser::moved(*old(self), *final(self)),
            r is Ok ==> final(self).pos > old(self).pos,
            r matches Err(e) ==> parse_error(e),
            r matches Ok(k) ==> kind_strs_ok(k),
            (kind_res_v(r), final(self).pos as int) == sp_node_body(
                old(self).tokens@,
                old(self).src@,
                old(self).pos as int,
                name@,
                name_span,
                header_v(header),
                header_span,
            ),
        decreases old(self).tokens@.len() - old(self).pos, 32nat,
    {
        let body = match self.parse_block(Stop::Brace) {
            Ok((b, _)) => b,
            Err(e) => return Err(e),
        };
        let close = match self.expect(TokenKind::RBrace, "`}` to close the node body") {
            Ok(t) => t,
            Err(e) => return Err(e),
        };
        Ok(
            ItemKind::Node(
                NodeDecl { name, name_span, header, header_span, body, body_span: name_span.join(close.span) },
            ),
        )
    }

    /// A bare word begins a node (`name { }` or `name header { }`), a leaf
    /// (`name = value`), or a call statement (`name(args)`).
    #[verifier::rlimit(60)]
    fn parse_leaf_node_or_call(&mut self) -> (r: Result<ItemKind, SyntaxError>)
        requires
            old(self).wf(),
            old(self).cur().kind is BareWord,
        ensures
            Parser::moved(*old(self), *final(self)),
            r is Ok ==> final(self).pos > old(self).pos,
            r matches Err(e) ==> parse_error(e),
            (kind_res_v(r), final(self).pos as int) == sp_named(
                old(self).tokens@,
                old(self).src@,
                old(self).pos as int,
            ),
            r matches Ok(k) ==> kind_strs_ok(k),
        decreases old(self).tokens@.len() - old(self).pos, 28nat,
    {
        let ghost p0 = self.pos as int;
        let (name, name_span) = match self.expect_name("a node or leaf name") {
            Ok(x) => x,
            Err(e) => return Err(e),
        };
        proof {
            lemma_next_sig(self.tokens@, self.pos as int);
        }
        let header_follows = matches!(
            self.peek().kind,
            TokenKind::BareWord(_) | TokenKind::QuotedString(_)
        ) && matches!(self.peek2().kind, TokenKind::LBrace);
        if header_follows {
            let header_tok = self.bump();
            let header = match header_tok.kind {
                TokenKind::BareWord(w) => HeaderValue::Bare(w),
                TokenKind::QuotedString(q) => HeaderValue::Quoted(q),
                _ => HeaderValue::Bare(String::new()),
            };
            self.bump();  // {
            return self.parse_node_body(name, name_span, Some(header), Some(header_tok.span));
        }
        match &self.peek().kind {
            TokenKind::LBrace => {
                self.bump();
                self.parse_node_body(name, name_span, None, None)
            },
            TokenKind::Eq => {
                self.bump();
                match self.parse_value() {
                    Ok(value) => Ok(ItemKind::Leaf(LeafDecl { key: name, key_span: name_span, value })),
                    Err(e) => Err(e),
                }
            },
            TokenKind::LParen => {
                let callee = Expr::new(ExprKind::Ident(name), name_span);
                match self.parse_call_from(callee) {
                    Ok(call) => Ok(ItemKind::Call(call)),
                    Err(e) => Err(e),
                }
            },
            TokenKind::Eof => Err(
                SyntaxError::UnexpectedEof {
                    context: owned("`{` (a node), `=` (a leaf), or `(` (a call) after this name"),
                    span: self.current_span(),
                },
            ),
            other => Err(
                SyntaxError::UnexpectedToken {
                    expected: owned("`{` (a node), `=` (a leaf), or `(` (a call)"),
                    found: other.describe(),
                    span: self.current_span(),
                },
            ),
        }
    }

    // -- top level --------------------------------------------------------

    fn parse_document(&mut self) -> (r: Result<Document, SyntaxError>)
        requires
            old(self).wf(),
            old(self).pos == 0,
        ensures
            r matches Err(e) ==> parse_error(e),
            document_res_v(r) == sp_document(old(self).tokens@, old(self).src@),
            r matches Ok(d) ==> items_strs_ok(d.items@),
    {
        match self.parse_block(Stop::Input) {
            Ok((items, trailing)) => Ok(Document { items, trailing }),
            Err(e) => Err(e),
        }
    }
}

proof fn lemma_token_starts_in_text(text: Seq<char>, toks: Seq<Token>, cr: Seq<(int, int)>, i: int)
    requires
        lexed_as(text, toks, cr),
        0 <= i < toks.len(),
    ensures
        0 <= cr[i].0 <= cr[i].1 <= text.len(),
    decreases i,
{
    assert(token_at(text, toks, cr, i));
    if i > 0 {
        lemma_token_starts_in_text(text, toks, cr, i - 1);
    }
}

/// Every token stream that the lexer produces is one the parser can walk.
pub proof fn lemma_tokenized_stream_ok(text: Seq<char>, toks: Seq<Token>)
    requires
        tokenized(text, toks),
        byte_len(text) <= u32::MAX,
    ensures
        stream_ok(toks),
{
    let cr = choose|cr: Seq<(int, int)>|
        {
            &&& #[trigger] lexed_as(text, toks, cr)
            &&& toks.len() > 0
            &&& toks.last().kind is Eof
            &&& cr.last() == (text.len() as int, text.len() as int)
            &&& forall|i: int| 0 <= i < toks.len() - 1 ==> !(#[trigger] toks[i].kind is Eof)
        };
    assert forall|i: int| 0 <= i < toks.len() implies word_fits(#[trigger] toks[i]) by {
        assert(token_at(text, toks, cr, i));
        lemma_token_starts_in_text(text, toks, cr, i);
        if toks[i].kind is BareWord {
            lemma_byte_len_split(text, cr[i].0, cr[i].1);
            lemma_byte_len_mono(text, cr[i].1, text.len() as int);
            assert(text.take(text.len() as int) =~= text);
        }
    }
}

/// Parses a token stream, lexed from `src`, into a document: exactly what
/// [`sp_document`] says, with every bare string split into its parts.
pub fn parse(src: &str, tokens: Vec<Token>) -> (r: Result<Document, SyntaxError>)
    requires
        byte_len(src@) <= u32::MAX,
        stream_ok(tokens@),
    ensures
        r matches Err(e) ==> parse_error(e),
        document_res_v(r) == sp_document(tokens@, src@),
        r matches Ok(d) ==> items_strs_ok(d.items@),
{
    let src_chars = chars_of(src);
    let offs = byte_offsets(src_chars.as_slice());
    let mut p = Parser { src: src_chars, offs, tokens, pos: 0 };
    p.parse_document()
}

} // verus!
