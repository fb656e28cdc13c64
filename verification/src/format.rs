//! The canonical formatter: renders a [`Document`] straight from the syntax
//! tree, so the output depends only on the structure the parser saw and
//! not on the input's spacing. `script { }` bodies are the one exception:
//! their raw text is reproduced as written.
//!
//! Comments are kept at the granularity the parser tracks them: leading
//! comments on their own lines above an item, and one trailing comment on
//! the same line after it. Line comments (`#` and `--`) are written with
//! `#`; block comments (`--[[ ]]`) are kept as written.

use vstd::prelude::*;
use crate::ast::{
    BinOp, Comment, Document, Expr, ExprKind, FnDef, ForStmt, HeaderValue, IfStmt, Item, ItemKind,
    NodeDecl, StrLit, StrPart, UnOp,
};
use crate::number::{decimal_display, float_literal_text, int_text, push_decimal, push_i64};
use crate::parser::{part_text, parts_text};
use crate::text::{chars_of, is_whitespace, is_ws, push_char, push_str, string_of_range};

verus! {

/// How the formatter lays out its output.
#[derive(Debug, Clone)]
pub struct FormatOptions {
    /// Spaces per nesting level.
    pub indent_width: usize,
}

impl Default for FormatOptions {
    fn default() -> (o: Self)
        ensures
            o.indent_width == 4,
    {
        FormatOptions { indent_width: 4 }
    }
}

// ---------------------------------------------------------------------
// What the formatter writes
// ---------------------------------------------------------------------

pub open spec fn spaces(n: nat) -> Seq<char> {
    Seq::new(n, |_i: int| ' ')
}

/// `s` without its leading white space.
pub open spec fn trim_start(s: Seq<char>) -> Seq<char>
    decreases s.len(),
{
    if s.len() > 0 && is_ws(s[0]) {
        trim_start(s.drop_first())
    } else {
        s
    }
}

/// `s` without its trailing white space.
pub open spec fn trim_end(s: Seq<char>) -> Seq<char>
    decreases s.len(),
{
    if s.len() > 0 && is_ws(s.last()) {
        trim_end(s.drop_last())
    } else {
        s
    }
}

/// `s` without white space at either end (what `str::trim` returns).
pub open spec fn trimmed(s: Seq<char>) -> Seq<char> {
    trim_end(trim_start(s))
}

/// A comment as the formatter writes it: a block comment as written, a
/// line comment with `# ` and its text trimmed.
pub open spec fn comment_text(c: Comment) -> Seq<char> {
    if c.block {
        seq!['-', '-', '[', '['] + c.text@ + seq![']', ']']
    } else {
        seq!['#', ' '] + trimmed(c.text@)
    }
}

/// How a character is written inside a double-quoted string.
pub open spec fn escaped_char(c: char) -> Seq<char> {
    if c == '"' {
        seq!['\\', '"']
    } else if c == '\\' {
        seq!['\\', '\\']
    } else if c == '\n' {
        seq!['\\', 'n']
    } else if c == '\t' {
        seq!['\\', 't']
    } else if c == '\r' {
        seq!['\\', 'r']
    } else {
        seq![c]
    }
}

/// How a text is written between double quotes.
pub open spec fn escaped(s: Seq<char>) -> Seq<char>
    decreases s.len(),
{
    if s.len() == 0 {
        seq![]
    } else {
        escaped_char(s[0]) + escaped(s.drop_first())
    }
}

pub open spec fn quoted(s: Seq<char>) -> Seq<char> {
    seq!['"'] + escaped(s) + seq!['"']
}

pub open spec fn strlit_text(l: StrLit) -> Seq<char> {
    match l {
        StrLit::Quoted(s) => quoted(s@),
        StrLit::Bare(parts) => parts_text(parts@),
    }
}

pub open spec fn header_text(h: HeaderValue) -> Seq<char> {
    match h {
        HeaderValue::Bare(s) => s@,
        HeaderValue::Quoted(s) => quoted(s@),
    }
}

/// Binding strength of a binary operator (higher binds tighter).
pub open spec fn binop_prec(op: BinOp) -> u8 {
    match op {
        BinOp::Or => 1,
        BinOp::And => 3,
        BinOp::Eq | BinOp::NotEq | BinOp::Lt | BinOp::Gt | BinOp::LtEq | BinOp::GtEq => 5,
        BinOp::Add | BinOp::Sub => 7,
        BinOp::Mul | BinOp::Div | BinOp::Mod => 9,
    }
}

pub open spec fn prec_unary() -> u8 {
    11
}

pub open spec fn prec_postfix() -> u8 {
    13
}

pub open spec fn prec_primary() -> u8 {
    15
}

/// Binding strength of an expression's outermost construct.
pub open spec fn expr_prec(e: Expr) -> u8 {
    match e.kind {
        ExprKind::Binary(op, _, _) => binop_prec(op),
        ExprKind::Unary(_, _) => prec_unary(),
        ExprKind::Call(_, _) | ExprKind::Member(_, _, _) => prec_postfix(),
        _ => prec_primary(),
    }
}

pub open spec fn binop_text(op: BinOp) -> Seq<char> {
    match op {
        BinOp::Add => seq!['+'],
        BinOp::Sub => seq!['-'],
        BinOp::Mul => seq!['*'],
        BinOp::Div => seq!['/'],
        BinOp::Mod => seq!['%'],
        BinOp::Eq => seq!['=', '='],
        BinOp::NotEq => seq!['~', '='],
        BinOp::Lt => seq!['<'],
        BinOp::Gt => seq!['>'],
        BinOp::LtEq => seq!['<', '='],
        BinOp::GtEq => seq!['>', '='],
        BinOp::And => seq!['a', 'n', 'd'],
        BinOp::Or => seq!['o', 'r'],
    }
}

/// An expression as the formatter writes it, in a position that needs at
/// least binding strength `min`: parenthesised only where the tree's
/// grouping would otherwise be lost.
pub open spec fn expr_text(e: Expr, min: u8) -> Seq<char>
    decreases e, 1nat,
{
    if expr_prec(e) < min {
        seq!['('] + expr_body(e) + seq![')']
    } else {
        expr_body(e)
    }
}

/// An expression as the formatter writes it, without parentheses of its
/// own.
pub open spec fn expr_body(e: Expr) -> Seq<char>
    decreases e, 0nat,
{
    match e.kind {
        ExprKind::Int(n) => int_text(n as int),
        ExprKind::Float(s) => float_literal_text(s@),
        ExprKind::Bool(b) => if b {
            seq!['t', 'r', 'u', 'e']
        } else {
            seq!['f', 'a', 'l', 's', 'e']
        },
        ExprKind::Nil => seq!['n', 'i', 'l'],
        ExprKind::Color(h) => seq!['#'] + h@,
        ExprKind::Duration(a, u) => decimal_display(a@) + u@,
        ExprKind::Str(l) => strlit_text(l),
        ExprKind::List(items) => seq!['['] + exprs_text(items@) + seq![']'],
        ExprKind::Ident(n) => n@,
        ExprKind::Unary(op, x) => match op {
            UnOp::Neg => negation_text(expr_text(*x, prec_unary())),
            UnOp::Not => seq!['n', 'o', 't', ' '] + expr_text(*x, prec_unary()),
        },
        ExprKind::Binary(op, l, r) => expr_text(*l, binop_prec(op)) + seq![' '] + binop_text(op)
            + seq![' '] + expr_text(*r, (binop_prec(op) + 1) as u8),
        ExprKind::Call(c, args) => expr_text(*c, prec_postfix()) + seq!['('] + exprs_text(args@)
            + seq![')'],
        ExprKind::Member(b, f, _) => expr_text(*b, prec_postfix()) + seq!['.'] + f@,
    }
}

/// `-` before an operand written `t`, with a space between where `t`
/// itself begins with `-`: two minus signs side by side would start a
/// comment.
pub open spec fn negation_text(t: Seq<char>) -> Seq<char> {
    if t.len() > 0 && t[0] == '-' {
        seq!['-', ' '] + t
    } else {
        seq!['-'] + t
    }
}

/// The precedence level of a binary operator, loosest first: `or`, `and`,
/// the comparisons, `+` and `-`, then `*`, `/` and `%`.
pub open spec fn op_level(op: BinOp) -> int {
    match op {
        BinOp::Or => 1,
        BinOp::And => 2,
        BinOp::Eq | BinOp::NotEq | BinOp::Lt | BinOp::Gt | BinOp::LtEq | BinOp::GtEq => 3,
        BinOp::Add | BinOp::Sub => 4,
        BinOp::Mul | BinOp::Div | BinOp::Mod => 5,
    }
}

/// `t` in parentheses.
pub open spec fn grouped(t: Seq<char>) -> Seq<char> {
    seq!['('] + t + seq![')']
}

/// How the operand `x` of a unary operator is written: in parentheses
/// exactly when it is a binary expression, which binds looser than any
/// unary operator.
pub open spec fn unary_operand_text(x: Expr) -> Seq<char> {
    if x.kind is Binary {
        grouped(expr_body(x))
    } else {
        expr_body(x)
    }
}

/// How the left operand `l` of the binary operator `op` is written: in
/// parentheses exactly when it is a binary expression on a looser level.
pub open spec fn left_operand_text(op: BinOp, l: Expr) -> Seq<char> {
    match l.kind {
        ExprKind::Binary(lo, _, _) => if op_level(lo) < op_level(op) {
            grouped(expr_body(l))
        } else {
            expr_body(l)
        },
        _ => expr_body(l),
    }
}

/// How the right operand `r` of the binary operator `op` is written: in
/// parentheses exactly when it is a binary expression on the same or a
/// looser level (operators associate to the left).
pub open spec fn right_operand_text(op: BinOp, r: Expr) -> Seq<char> {
    match r.kind {
        ExprKind::Binary(ro, _, _) => if op_level(ro) <= op_level(op) {
            grouped(expr_body(r))
        } else {
            expr_body(r)
        },
        _ => expr_body(r),
    }
}

/// The formatter keeps the grouping of the tree and adds no parentheses
/// beyond it: the operand of `not` or `-` is parenthesised exactly when
/// it is a binary expression (`not (a and b)`, but `not a`), and an
/// operand of a binary operator exactly when it is a binary expression
/// that binds looser, or as loose on the right (`(a or b) and c`,
/// `a - (b - c)`, but `a or b and c` and `a - b - c`).
pub proof fn lemma_printed_grouping_follows_the_tree(e: Expr)
    ensures
        e.kind matches ExprKind::Unary(UnOp::Not, x) ==> expr_body(e) == seq!['n', 'o', 't', ' ']
            + unary_operand_text(*x),
        e.kind matches ExprKind::Unary(UnOp::Neg, x) ==> (x.kind is Binary ==> expr_body(e) == seq![
            '-',
        ] + grouped(expr_body(*x))),
        e.kind matches ExprKind::Binary(op, l, r) ==> expr_body(e) == left_operand_text(op, *l)
            + seq![' '] + binop_text(op) + seq![' '] + right_operand_text(op, *r),
{
    match e.kind {
        ExprKind::Unary(_, x) => {
            assert(expr_text(*x, prec_unary()) == unary_operand_text(*x));
        },
        ExprKind::Binary(op, l, r) => {
            assert(expr_text(*l, binop_prec(op)) == left_operand_text(op, *l));
            assert(expr_text(*r, (binop_prec(op) + 1) as u8) == right_operand_text(op, *r));
        },
        _ => {},
    }
}

/// The formatter writes each binary operator as the lexeme of the token
/// that the parser reads as that operator.
pub proof fn lemma_operator_symbols_are_lexemes(k: crate::token::TokenKind)
    requires
        crate::parser::infix_op(k) is Some,
    ensures
        crate::token::fixed_text(k) == Some(binop_text(crate::parser::infix_op(k)->0)),
{
    reveal_strlit("and");
    reveal_strlit("or");
    reveal_strlit("+");
    reveal_strlit("-");
    reveal_strlit("*");
    reveal_strlit("/");
    reveal_strlit("%");
    reveal_strlit("==");
    reveal_strlit("~=");
    reveal_strlit("<");
    reveal_strlit(">");
    reveal_strlit("<=");
    reveal_strlit(">=");
}

/// Expressions separated by `, `.
pub open spec fn exprs_text(s: Seq<Expr>) -> Seq<char>
    decreases s, 0nat,
{
    if s.len() == 0 {
        seq![]
    } else if s.len() == 1 {
        expr_text(s[0], 0)
    } else {
        exprs_text(s.drop_last()) + seq![',', ' '] + expr_text(s.last(), 0)
    }
}

/// Names separated by `, `.
pub open spec fn names_text(s: Seq<String>) -> Seq<char>
    decreases s.len(),
{
    if s.len() == 0 {
        seq![]
    } else if s.len() == 1 {
        s[0]@
    } else {
        names_text(s.drop_last()) + seq![',', ' '] + s.last()@
    }
}

/// Comments, each on its own line at indentation `pad`.
pub open spec fn comments_text(cs: Seq<Comment>, pad: Seq<char>) -> Seq<char>
    decreases cs.len(),
{
    if cs.len() == 0 {
        seq![]
    } else {
        comments_text(cs.drop_last(), pad) + pad + comment_text(cs.last()) + seq!['\n']
    }
}

/// An item at indentation `pad`, with `unit` the indentation of one level.
pub open spec fn item_text(it: Item, pad: Seq<char>, unit: Seq<char>) -> Seq<char>
    decreases it,
{
    (if it.trivia.blank_line_before {
        seq!['\n']
    } else {
        seq![]
    }) + comments_text(it.trivia.leading@, pad) + pad + kind_text(it.kind, pad, unit) + (
    match it.trivia.trailing {
        Some(c) => seq![' '] + comment_text(c),
        None => seq![],
    }) + seq!['\n']
}

pub open spec fn items_text(s: Seq<Item>, pad: Seq<char>, unit: Seq<char>) -> Seq<char>
    decreases s,
{
    if s.len() == 0 {
        seq![]
    } else {
        items_text(s.drop_last(), pad, unit) + item_text(s.last(), pad, unit)
    }
}

/// The `elseif` arms of an `if`.
pub open spec fn elifs_text(s: Seq<(Expr, Vec<Item>)>, pad: Seq<char>, unit: Seq<char>) -> Seq<
    char,
>
    decreases s,
{
    if s.len() == 0 {
        seq![]
    } else {
        elifs_text(s.drop_last(), pad, unit) + pad + seq!['e', 'l', 's', 'e', 'i', 'f', ' ']
            + expr_text(s.last().0, 0) + seq![' ', 't', 'h', 'e', 'n', '\n'] + items_text(
            s.last().1@,
            pad + unit,
            unit,
        )
    }
}

/// What follows the indentation of an item, up to its trailing comment.
pub open spec fn kind_text(k: ItemKind, pad: Seq<char>, unit: Seq<char>) -> Seq<char>
    decreases k,
{
    let inner = pad + unit;
    match k {
        ItemKind::Leaf(l) => l.key@ + seq![' ', '=', ' '] + expr_text(l.value, 0),
        ItemKind::Node(n) => n.name@ + (match n.header {
            Some(h) => seq![' '] + header_text(h),
            None => seq![],
        }) + seq![' ', '{', '\n'] + items_text(n.body@, inner, unit) + pad + seq!['}'],
        ItemKind::VarDef(v) => seq!['@'] + v.name@ + seq![' ', '=', ' '] + expr_text(v.value, 0),
        ItemKind::Include(i) => seq!['i', 'n', 'c', 'l', 'u', 'd', 'e', ' '] + strlit_text(i.path),
        ItemKind::If(st) => seq!['i', 'f', ' '] + expr_text(st.cond, 0) + seq![
            ' ',
            't',
            'h',
            'e',
            'n',
            '\n',
        ] + items_text(st.then_body@, inner, unit) + elifs_text(st.elifs@, pad, unit) + (
        match st.else_body {
            Some(b) => pad + seq!['e', 'l', 's', 'e', '\n'] + items_text(b@, inner, unit),
            None => seq![],
        }) + pad + seq!['e', 'n', 'd'],
        ItemKind::For(st) => seq!['f', 'o', 'r', ' '] + st.var@ + seq![' ', '=', ' '] + expr_text(
            st.start,
            0,
        ) + seq![',', ' '] + expr_text(st.stop, 0) + (match st.step {
            Some(s) => seq![',', ' '] + expr_text(s, 0),
            None => seq![],
        }) + seq![' ', 'd', 'o', '\n'] + items_text(st.body@, inner, unit) + pad + seq![
            'e',
            'n',
            'd',
        ],
        ItemKind::While(st) => seq!['w', 'h', 'i', 'l', 'e', ' '] + expr_text(st.cond, 0) + seq![
            ' ',
            'd',
            'o',
            '\n',
        ] + items_text(st.body@, inner, unit) + pad + seq!['e', 'n', 'd'],
        ItemKind::Local(l) => seq!['l', 'o', 'c', 'a', 'l', ' '] + l.name@ + seq![' ', '=', ' ']
            + expr_text(l.value, 0),
        ItemKind::Return(r) => seq!['r', 'e', 't', 'u', 'r', 'n'] + (match r.value {
            Some(v) => seq![' '] + expr_text(v, 0),
            None => seq![],
        }),
        ItemKind::FnDef(f) => seq!['f', 'n', ' '] + f.name@ + seq!['('] + names_text(f.params@)
            + seq![')', ' ', '{', '\n'] + items_text(f.body@, inner, unit) + pad + seq!['}'],
        ItemKind::Script(s) => seq!['s', 'c', 'r', 'i', 'p', 't', ' ', '{'] + s.raw@ + seq!['}'],
        ItemKind::Call(e) => expr_text(e, 0),
    }
}

/// The text with runs of empty lines at its end cut to none, and a final
/// line break added where one is missing.
pub open spec fn end_normalized(s: Seq<char>) -> Seq<char>
    decreases s.len(),
{
    if s.len() >= 2 && s[s.len() - 1] == '\n' && s[s.len() - 2] == '\n' {
        end_normalized(s.drop_last())
    } else if s.len() > 0 && s.last() != '\n' {
        s.push('\n')
    } else {
        s
    }
}

/// A whole document as the formatter writes it with `width` spaces per
/// nesting level.
pub open spec fn document_text(doc: Document, width: nat) -> Seq<char> {
    end_normalized(
        items_text(doc.items@, seq![], spaces(width)) + comments_text(doc.trailing@, seq![]),
    )
}

// ---------------------------------------------------------------------
// Laws
// ---------------------------------------------------------------------

proof fn lemma_escaped_concat(a: Seq<char>, b: Seq<char>)
    ensures
        escaped(a + b) == escaped(a) + escaped(b),
    decreases a.len(),
{
    if a.len() == 0 {
        assert(a + b =~= b);
    } else {
        lemma_escaped_concat(a.drop_first(), b);
        assert((a + b).drop_first() =~= a.drop_first() + b);
    }
}

/// A quoted string the formatter writes reads back, through the lexer's
/// escapes, as exactly the text it was written from.
pub proof fn lemma_escape_round_trip(s: Seq<char>)
    ensures
        crate::lexer::unescape(escaped(s), '"') == Some(s),
    decreases s.len(),
{
    if s.len() > 0 {
        lemma_escape_round_trip(s.drop_first());
        let body = escaped(s);
        let rest = escaped(s.drop_first());
        let c = s[0];
        if c == '"' || c == '\\' || c == '\n' || c == '\t' || c == '\r' {
            assert(body.skip(2) =~= rest);
        } else {
            assert(body.drop_first() =~= rest);
        }
        assert(seq![c] + s.drop_first() =~= s);
    }
}

/// A bare string prints as exactly the word it was parsed from.
pub proof fn lemma_bare_string_round_trip(word: Seq<char>, base: int, parts: Vec<StrPart>)
    requires
        crate::parser::interpolated(word, base, parts@),
    ensures
        strlit_text(StrLit::Bare(parts)) == word,
{
}

/// Formatting ends every document with exactly one line break (unless it
/// is empty) and never with an empty line.
pub proof fn lemma_document_ending(doc: Document, width: nat)
    ensures
        document_text(doc, width).len() > 0 ==> document_text(doc, width).last() == '\n',
        document_text(doc, width).len() >= 2 ==> !(document_text(doc, width)[document_text(
            doc,
            width,
        ).len() - 2] == '\n'),
{
    lemma_end_normalized(
        items_text(doc.items@, seq![], spaces(width)) + comments_text(doc.trailing@, seq![]),
    );
}

proof fn lemma_end_normalized(s: Seq<char>)
    ensures
        end_normalized(s).len() > 0 ==> end_normalized(s).last() == '\n',
        end_normalized(s).len() >= 2 ==> end_normalized(s)[end_normalized(s).len() - 2] != '\n',
    decreases s.len(),
{
    if s.len() >= 2 && s[s.len() - 1] == '\n' && s[s.len() - 2] == '\n' {
        lemma_end_normalized(s.drop_last());
    }
}

// ---------------------------------------------------------------------
// The printer
// ---------------------------------------------------------------------

/// Writes a text between double quotes, escaped.
fn escape_str(s: &str) -> (r: String)
    ensures
        r@ == escaped(s@),
{
    let cs = chars_of(s);
    let mut out = String::new();
    let mut i: usize = 0;
    while i < cs.len()
        invariant
            i <= cs.len(),
            cs@ == s@,
            out@ == escaped(cs@.take(i as int)),
        decreases cs.len() - i,
    {
        let c = cs[i];
        proof {
            lemma_escaped_concat(cs@.take(i as int), seq![c]);
            assert(cs@.take(i as int) + seq![c] =~= cs@.take(i + 1));
            assert(seq![c].drop_first() =~= Seq::<char>::empty());
            reveal_with_fuel(escaped, 2);
            assert(escaped(seq![c]) =~= escaped_char(c));
        }
        if c == '"' {
            push_char(&mut out, '\\');
            push_char(&mut out, '"');
        } else if c == '\\' {
            push_char(&mut out, '\\');
            push_char(&mut out, '\\');
        } else if c == '\n' {
            push_char(&mut out, '\\');
            push_char(&mut out, 'n');
        } else if c == '\t' {
            push_char(&mut out, '\\');
            push_char(&mut out, 't');
        } else if c == '\r' {
            push_char(&mut out, '\\');
            push_char(&mut out, 'r');
        } else {
            push_char(&mut out, c);
        }
        i += 1;
    }
    assert(cs@.take(cs.len() as int) =~= cs@);
    out
}

/// Writes a comment: a block comment as written, a line comment as `# `
/// and its trimmed text.
fn render_comment(c: &Comment) -> (r: String)
    ensures
        r@ == comment_text(*c),
{
    let mut out = String::new();
    if c.block {
        push_char(&mut out, '-');
        push_char(&mut out, '-');
        push_char(&mut out, '[');
        push_char(&mut out, '[');
        push_str(&mut out, c.text.as_str());
        push_char(&mut out, ']');
        push_char(&mut out, ']');
        assert(out@ =~= comment_text(*c));
    } else {
        push_char(&mut out, '#');
        push_char(&mut out, ' ');
        let cs = chars_of(c.text.as_str());
        let mut a: usize = 0;
        assert(cs@.skip(0) =~= cs@);
        while a < cs.len() && is_whitespace(cs[a])
            invariant
                a <= cs.len(),
                trim_start(cs@.skip(a as int)) == trim_start(cs@),
            decreases cs.len() - a,
        {
            assert(cs@.skip(a as int).drop_first() =~= cs@.skip(a + 1));
            a += 1;
        }
        let ghost front = cs@.skip(a as int);
        assert(trim_start(front) == front);
        let mut b: usize = cs.len();
        assert(front.take(b - a) =~= front);
        while b > a && is_whitespace(cs[b - 1])
            invariant
                a <= b <= cs.len(),
                front == cs@.skip(a as int),
                trim_end(front.take(b - a)) == trim_end(front),
            decreases b,
        {
            assert(front.take(b - a).drop_last() =~= front.take(b - 1 - a));
            b -= 1;
        }
        let t = string_of_range(cs.as_slice(), a, b);
        assert(t@ =~= front.take(b - a));
        push_str(&mut out, t.as_str());
        assert(out@ =~= comment_text(*c));
    }
    out
}

fn binop_precedence(op: BinOp) -> (p: u8)
    ensures
        p == binop_prec(op),
{
    match op {
        BinOp::Or => 1,
        BinOp::And => 3,
        BinOp::Eq | BinOp::NotEq | BinOp::Lt | BinOp::Gt | BinOp::LtEq | BinOp::GtEq => 5,
        BinOp::Add | BinOp::Sub => 7,
        BinOp::Mul | BinOp::Div | BinOp::Mod => 9,
    }
}

fn expr_precedence(e: &Expr) -> (p: u8)
    ensures
        p == expr_prec(*e),
{
    match &e.kind {
        ExprKind::Binary(op, _, _) => binop_precedence(*op),
        ExprKind::Unary(_, _) => 11,
        ExprKind::Call(_, _) | ExprKind::Member(_, _, _) => 13,
        _ => 15,
    }
}

fn binop_symbol(op: BinOp) -> (s: Vec<char>)
    ensures
        s@ == binop_text(op),
{
    match op {
        BinOp::Add => vec!['+'],
        BinOp::Sub => vec!['-'],
        BinOp::Mul => vec!['*'],
        BinOp::Div => vec!['/'],
        BinOp::Mod => vec!['%'],
        BinOp::Eq => vec!['=', '='],
        BinOp::NotEq => vec!['~', '='],
        BinOp::Lt => vec!['<'],
        BinOp::Gt => vec!['>'],
        BinOp::LtEq => vec!['<', '='],
        BinOp::GtEq => vec!['>', '='],
        BinOp::And => vec!['a', 'n', 'd'],
        BinOp::Or => vec!['o', 'r'],
    }
}

struct Printer {
    /// The indentation of one nesting level.
    unit: String,
    out: String,
}

impl Printer {
    fn push(&mut self, c: char)
        ensures
            final(self).unit == old(self).unit,
            final(self).out@ == old(self).out@.push(c),
    {
        push_char(&mut self.out, c);
    }

    fn push_seq(&mut self, cs: &[char])
        ensures
            final(self).unit == old(self).unit,
            final(self).out@ == old(self).out@ + cs@,
    {
        crate::text::push_chars(&mut self.out, cs);
    }

    fn push_text(&mut self, s: &str)
        ensures
            final(self).unit == old(self).unit,
            final(self).out@ == old(self).out@ + s@,
    {
        push_str(&mut self.out, s);
    }

    /// Writes the indentation `pad`.
    fn indent(&mut self, pad: &String)
        ensures
            final(self).unit == old(self).unit,
            final(self).out@ == old(self).out@ + pad@,
    {
        self.push_text(pad.as_str());
    }

    fn print_comments(&mut self, comments: &Vec<Comment>, pad: &String)
        ensures
            final(self).unit == old(self).unit,
            final(self).out@ == old(self).out@ + comments_text(comments@, pad@),
    {
        let ghost start = self.out@;
        let mut i: usize = 0;
        while i < comments.len()
            invariant
                i <= comments.len(),
                self.unit == old(self).unit,
                start == old(self).out@,
                self.out@ == start + comments_text(comments@.take(i as int), pad@),
            decreases comments.len() - i,
        {
            self.indent(pad);
            let text = render_comment(&comments[i]);
            self.push_text(text.as_str());
            self.push('\n');
            proof {
                assert(comments@.take(i + 1).drop_last() =~= comments@.take(i as int));
            }
            i += 1;
        }
        assert(comments@.take(comments.len() as int) =~= comments@);
    }

    fn print_header(&mut self, header: &HeaderValue)
        ensures
            final(self).unit == old(self).unit,
            final(self).out@ == old(self).out@ + header_text(*header),
    {
        match header {
            HeaderValue::Bare(s) => self.push_text(s.as_str()),
            HeaderValue::Quoted(s) => {
                self.push('"');
                let e = escape_str(s.as_str());
                self.push_text(e.as_str());
                self.push('"');
            },
        }
    }

    fn print_strlit(&mut self, lit: &StrLit)
        ensures
            final(self).unit == old(self).unit,
            final(self).out@ == old(self).out@ + strlit_text(*lit),
    {
        match lit {
            StrLit::Quoted(s) => {
                self.push('"');
                let e = escape_str(s.as_str());
                self.push_text(e.as_str());
                self.push('"');
            },
            StrLit::Bare(parts) => {
                let ghost start = self.out@;
                let mut i: usize = 0;
                while i < parts.len()
                    invariant
                        i <= parts.len(),
                        self.unit == old(self).unit,
                        start == old(self).out@,
                        self.out@ == start + parts_text(parts@.take(i as int)),
                    decreases parts.len() - i,
                {
                    match &parts[i] {
                        StrPart::Lit(s) => self.push_text(s.as_str()),
                        StrPart::Interp(name, _) => {
                            self.push('$');
                            self.push_text(name.as_str());
                        },
                    }
                    proof {
                        assert(parts@.take(i + 1).drop_last() =~= parts@.take(i as int));
                    }
                    i += 1;
                }
                assert(parts@.take(parts.len() as int) =~= parts@);
            },
        }
    }

    /// Writes an expression with only the parentheses that keep the tree's
    /// grouping: the parser drops grouping, so ignoring precedence here
    /// could turn `(a + b) * c` into `a + b * c`.
    fn print_expr(&mut self, e: &Expr, min: u8)
        ensures
            final(self).unit == old(self).unit,
            final(self).out@ == old(self).out@ + expr_text(*e, min),
        decreases e, 1nat,
    {
        let ghost start = self.out@;
        let parenthesize = expr_precedence(e) < min;
        if parenthesize {
            self.push('(');
        }
        self.print_expr_body(e);
        if parenthesize {
            self.push(')');
        }
        assert(self.out@ =~= start + expr_text(*e, min));
    }

    #[verifier::spinoff_prover]
    #[verifier::rlimit(40)]
    fn print_expr_body(&mut self, e: &Expr)
        ensures
            final(self).unit == old(self).unit,
            final(self).out@ == old(self).out@ + expr_body(*e),
        decreases e, 0nat,
    {
        let ghost start = self.out@;
        match &e.kind {
            ExprKind::Int(n) => push_i64(&mut self.out, *n),
            ExprKind::Float(s) => {
                let cs = chars_of(s.as_str());
                push_decimal(&mut self.out, cs.as_slice(), true);
            },
            ExprKind::Bool(b) => {
                if *b {
                    self.push_seq(&['t', 'r', 'u', 'e']);
                } else {
                    self.push_seq(&['f', 'a', 'l', 's', 'e']);
                }
            },
            ExprKind::Nil => self.push_seq(&['n', 'i', 'l']),
            ExprKind::Color(hex) => {
                self.push('#');
                self.push_text(hex.as_str());
                assert(self.out@ =~= start + expr_body(*e));
            },
            ExprKind::Duration(n, unit) => {
                let cs = chars_of(n.as_str());
                push_decimal(&mut self.out, cs.as_slice(), false);
                self.push_text(unit.as_str());
                assert(self.out@ =~= start + expr_body(*e));
            },
            ExprKind::Str(lit) => self.print_strlit(lit),
            ExprKind::List(items) => {
                self.push('[');
                self.print_exprs(items);
                self.push(']');
                assert(self.out@ =~= start + expr_body(*e));
            },
            ExprKind::Ident(name) => self.push_text(name.as_str()),
            ExprKind::Unary(UnOp::Neg, operand) => {
                let mut inner = Printer { unit: String::new(), out: String::new() };
                inner.print_expr(operand, 11);
                let cs = chars_of(inner.out.as_str());
                self.push('-');
                if cs.len() > 0 && cs[0] == '-' {
                    self.push(' ');
                }
                self.push_text(inner.out.as_str());
                assert(self.out@ =~= start + expr_body(*e));
            },
            ExprKind::Unary(UnOp::Not, operand) => {
                self.push_seq(&['n', 'o', 't', ' ']);
                self.print_expr(operand, 11);
                assert(self.out@ =~= start + expr_body(*e));
            },
            ExprKind::Binary(op, l, r) => {
                let op_prec = binop_precedence(*op);
                self.print_expr(l, op_prec);
                self.push(' ');
                let sym = binop_symbol(*op);
                self.push_seq(sym.as_slice());
                self.push(' ');
                // Every binary operator associates to the left: asking for
                // a strictly stronger binding on the right keeps a grouped
                // right operand such as `a - (b - c)`.
                self.print_expr(r, op_prec + 1);
                assert(self.out@ =~= start + expr_body(*e));
            },
            ExprKind::Call(callee, args) => {
                self.print_expr(callee, 13);
                self.push('(');
                self.print_exprs(args);
                self.push(')');
                assert(self.out@ =~= start + expr_body(*e));
            },
            ExprKind::Member(base, field, _) => {
                self.print_expr(base, 13);
                self.push('.');
                self.push_text(field.as_str());
                assert(self.out@ =~= start + expr_body(*e));
            },
        }
    }

    /// Writes expressions separated by `, `.
    fn print_exprs(&mut self, items: &Vec<Expr>)
        ensures
            final(self).unit == old(self).unit,
            final(self).out@ == old(self).out@ + exprs_text(items@),
        decreases items@, 0nat,
    {
        let ghost start = self.out@;
        let mut i: usize = 0;
        while i < items.len()
            invariant
                i <= items.len(),
                self.unit == old(self).unit,
                start == old(self).out@,
                self.out@ == start + exprs_text(items@.take(i as int)),
            decreases items.len() - i,
        {
            if i > 0 {
                self.push(',');
                self.push(' ');
            }
            self.print_expr(&items[i], 0);
            proof {
                let t = items@.take(i + 1);
                assert(t.drop_last() =~= items@.take(i as int));
                assert(t.last() == items@[i as int]);
                if i == 0 {
                    assert(t.len() == 1);
                }
            }
            i += 1;
        }
        assert(items@.take(items.len() as int) =~= items@);
    }

    fn print_names(&mut self, names: &Vec<String>)
        ensures
            final(self).unit == old(self).unit,
            final(self).out@ == old(self).out@ + names_text(names@),
    {
        let ghost start = self.out@;
        let mut i: usize = 0;
        while i < names.len()
            invariant
                i <= names.len(),
                self.unit == old(self).unit,
                start == old(self).out@,
                self.out@ == start + names_text(names@.take(i as int)),
            decreases names.len() - i,
        {
            if i > 0 {
                self.push(',');
                self.push(' ');
            }
            self.push_text(names[i].as_str());
            proof {
                let t = names@.take(i + 1);
                assert(t.drop_last() =~= names@.take(i as int));
            }
            i += 1;
        }
        assert(names@.take(names.len() as int) =~= names@);
    }

    /// Writes items at indentation `pad`.
    fn print_items(&mut self, items: &Vec<Item>, pad: &String)
        ensures
            final(self).unit == old(self).unit,
            final(self).out@ == old(self).out@ + items_text(items@, pad@, old(self).unit@),
        decreases items@, 0nat,
    {
        let ghost start = self.out@;
        let mut i: usize = 0;
        while i < items.len()
            invariant
                i <= items.len(),
                self.unit == old(self).unit,
                start == old(self).out@,
                self.out@ == start + items_text(items@.take(i as int), pad@, self.unit@),
            decreases items.len() - i,
        {
            self.print_item(&items[i], pad);
            proof {
                let t = items@.take(i + 1);
                assert(t.drop_last() =~= items@.take(i as int));
            }
            i += 1;
        }
        assert(items@.take(items.len() as int) =~= items@);
    }

    fn print_item(&mut self, item: &Item, pad: &String)
        ensures
            final(self).unit == old(self).unit,
            final(self).out@ == old(self).out@ + item_text(*item, pad@, old(self).unit@),
        decreases item, 0nat,
    {
        let ghost start = self.out@;
        if item.trivia.blank_line_before {
            self.push('\n');
        }
        self.print_comments(&item.trivia.leading, pad);
        self.indent(pad);
        self.print_item_kind(&item.kind, pad);
        match &item.trivia.trailing {
            Some(trailing) => {
                self.push(' ');
                let t = render_comment(trailing);
                self.push_text(t.as_str());
            },
            None => {},
        }
        self.push('\n');
        assert(self.out@ =~= start + item_text(*item, pad@, self.unit@));
    }

    /// Writes the body of a block one level deeper than `pad`.
    fn print_body(&mut self, items: &Vec<Item>, pad: &String)
        ensures
            final(self).unit == old(self).unit,
            final(self).out@ == old(self).out@ + items_text(
                items@,
                pad@ + old(self).unit@,
                old(self).unit@,
            ),
        decreases items@, 1nat,
    {
        let mut inner = pad.clone();
        inner.append(self.unit.as_str());
        self.print_items(items, &inner);
    }

    #[verifier::spinoff_prover]
    #[verifier::rlimit(40)]
    fn print_node(&mut self, node: &NodeDecl, pad: &String)
        ensures
            final(self).unit == old(self).unit,
            final(self).out@ == old(self).out@ + kind_text(ItemKind::Node(*node), pad@, old(self).unit@),
        decreases node, 0nat,
    {
        let ghost start = self.out@;
        self.push_text(node.name.as_str());
        match &node.header {
            Some(header) => {
                self.push(' ');
                self.print_header(header);
            },
            None => {},
        }
        self.push_seq(&[' ', '{', '\n']);
        self.print_body(&node.body, pad);
        self.indent(pad);
        self.push('}');
        assert(self.out@ =~= start + kind_text(ItemKind::Node(*node), pad@, self.unit@));
    }

    #[verifier::spinoff_prover]
    fn print_if(&mut self, stmt: &IfStmt, pad: &String)
        ensures
            final(self).unit == old(self).unit,
            final(self).out@ == old(self).out@ + kind_text(ItemKind::If(*stmt), pad@, old(self).unit@),
        decreases stmt, 0nat,
    {
        let ghost start = self.out@;
        self.push_seq(&['i', 'f', ' ']);
        self.print_expr(&stmt.cond, 0);
        self.push_seq(&[' ', 't', 'h', 'e', 'n', '\n']);
        self.print_body(&stmt.then_body, pad);
        let ghost before_elifs = self.out@;
        let mut i: usize = 0;
        while i < stmt.elifs.len()
            invariant
                i <= stmt.elifs.len(),
                self.unit == old(self).unit,
                self.out@ == before_elifs + elifs_text(stmt.elifs@.take(i as int), pad@, self.unit@),
            decreases stmt.elifs.len() - i,
        {
            let arm = &stmt.elifs[i];
            proof {
                assert(decreases_to!(*stmt => stmt.elifs));
                assert(decreases_to!(stmt.elifs => stmt.elifs@));
                assert(decreases_to!(stmt.elifs@ => stmt.elifs@[i as int]));
                assert(decreases_to!(stmt.elifs@[i as int] => stmt.elifs@[i as int].1));
                assert(decreases_to!(stmt.elifs@[i as int].1 => stmt.elifs@[i as int].1@));
            }
            self.indent(pad);
            self.push_seq(&['e', 'l', 's', 'e', 'i', 'f', ' ']);
            self.print_expr(&arm.0, 0);
            self.push_seq(&[' ', 't', 'h', 'e', 'n', '\n']);
            self.print_body(&arm.1, pad);
            proof {
                let t = stmt.elifs@.take(i + 1);
                assert(t.drop_last() =~= stmt.elifs@.take(i as int));
            }
            i += 1;
        }
        assert(stmt.elifs@.take(stmt.elifs.len() as int) =~= stmt.elifs@);
        let ghost after_elifs = self.out@;
        match &stmt.else_body {
            Some(body) => {
                self.indent(pad);
                self.push_seq(&['e', 'l', 's', 'e', '\n']);
                self.print_body(body, pad);
            },
            None => {},
        }
        self.indent(pad);
        self.push_seq(&['e', 'n', 'd']);
        assert(self.out@ =~= start + kind_text(ItemKind::If(*stmt), pad@, self.unit@));
    }

    #[verifier::spinoff_prover]
    #[verifier::rlimit(40)]
    fn print_for(&mut self, stmt: &ForStmt, pad: &String)
        ensures
            final(self).unit == old(self).unit,
            final(self).out@ == old(self).out@ + kind_text(ItemKind::For(*stmt), pad@, old(self).unit@),
        decreases stmt, 0nat,
    {
        let ghost start = self.out@;
        self.push_seq(&['f', 'o', 'r', ' ']);
        self.push_text(stmt.var.as_str());
        self.push_seq(&[' ', '=', ' ']);
        self.print_expr(&stmt.start, 0);
        self.push_seq(&[',', ' ']);
        self.print_expr(&stmt.stop, 0);
        match &stmt.step {
            Some(step) => {
                self.push_seq(&[',', ' ']);
                self.print_expr(step, 0);
            },
            None => {},
        }
        self.push_seq(&[' ', 'd', 'o', '\n']);
        self.print_body(&stmt.body, pad);
        self.indent(pad);
        self.push_seq(&['e', 'n', 'd']);
        assert(self.out@ =~= start + kind_text(ItemKind::For(*stmt), pad@, self.unit@));
    }

    #[verifier::spinoff_prover]
    #[verifier::rlimit(40)]
    fn print_fndef(&mut self, f: &FnDef, pad: &String)
        ensures
            final(self).unit == old(self).unit,
            final(self).out@ == old(self).out@ + kind_text(ItemKind::FnDef(*f), pad@, old(self).unit@),
        decreases f, 0nat,
    {
        let ghost start = self.out@;
        self.push_seq(&['f', 'n', ' ']);
        self.push_text(f.name.as_str());
        self.push('(');
        self.print_names(&f.params);
        self.push_seq(&[')', ' ', '{', '\n']);
        self.print_body(&f.body, pad);
        self.indent(pad);
        self.push('}');
        assert(self.out@ =~= start + kind_text(ItemKind::FnDef(*f), pad@, self.unit@));
    }

    #[verifier::spinoff_prover]
    #[verifier::rlimit(40)]
    fn print_item_kind(&mut self, kind: &ItemKind, pad: &String)
        ensures
            final(self).unit == old(self).unit,
            final(self).out@ == old(self).out@ + kind_text(*kind, pad@, old(self).unit@),
        decreases kind, 0nat,
    {
        let ghost start = self.out@;
        match kind {
            ItemKind::Leaf(leaf) => {
                self.push_text(leaf.key.as_str());
                self.push_seq(&[' ', '=', ' ']);
                self.print_expr(&leaf.value, 0);
                assert(self.out@ =~= start + kind_text(*kind, pad@, self.unit@));
            },
            ItemKind::Node(node) => self.print_node(node, pad),
            ItemKind::VarDef(v) => {
                self.push('@');
                self.push_text(v.name.as_str());
                self.push_seq(&[' ', '=', ' ']);
                self.print_expr(&v.value, 0);
                assert(self.out@ =~= start + kind_text(*kind, pad@, self.unit@));
            },
            ItemKind::Include(inc) => {
                self.push_seq(&['i', 'n', 'c', 'l', 'u', 'd', 'e', ' ']);
                self.print_strlit(&inc.path);
                assert(self.out@ =~= start + kind_text(*kind, pad@, self.unit@));
            },
            ItemKind::If(stmt) => self.print_if(stmt, pad),
            ItemKind::For(stmt) => self.print_for(stmt, pad),
            ItemKind::While(stmt) => {
                self.push_seq(&['w', 'h', 'i', 'l', 'e', ' ']);
                self.print_expr(&stmt.cond, 0);
                self.push_seq(&[' ', 'd', 'o', '\n']);
                self.print_body(&stmt.body, pad);
                self.indent(pad);
                self.push_seq(&['e', 'n', 'd']);
                assert(self.out@ =~= start + kind_text(*kind, pad@, self.unit@));
            },
            ItemKind::Local(l) => {
                self.push_seq(&['l', 'o', 'c', 'a', 'l', ' ']);
                self.push_text(l.name.as_str());
                self.push_seq(&[' ', '=', ' ']);
                self.print_expr(&l.value, 0);
                assert(self.out@ =~= start + kind_text(*kind, pad@, self.unit@));
            },
            ItemKind::Return(r) => {
                self.push_seq(&['r', 'e', 't', 'u', 'r', 'n']);
                match &r.value {
                    Some(v) => {
                        self.push(' ');
                        self.print_expr(v, 0);
                    },
                    None => {},
                }
                assert(self.out@ =~= start + kind_text(*kind, pad@, self.unit@));
            },
            ItemKind::FnDef(f) => self.print_fndef(f, pad),
            ItemKind::Script(sc) => {
                self.push_seq(&['s', 'c', 'r', 'i', 'p', 't', ' ', '{']);
                self.push_text(sc.raw.as_str());
                self.push('}');
                assert(self.out@ =~= start + kind_text(*kind, pad@, self.unit@));
            },
            ItemKind::Call(expr) => self.print_expr(expr, 0),
        }
    }
}

/// Formats a document with the default options.
pub fn format(doc: &Document) -> (r: String)
    ensures
        r@ == document_text(*doc, 4),
{
    format_with(doc, &FormatOptions::default())
}

/// Formats a document.
pub fn format_with(doc: &Document, opts: &FormatOptions) -> (r: String)
    ensures
        r@ == document_text(*doc, opts.indent_width as nat),
{
    let mut unit = String::new();
    let mut k: usize = 0;
    while k < opts.indent_width
        invariant
            k <= opts.indent_width,
            unit@ == spaces(k as nat),
        decreases opts.indent_width - k,
    {
        push_char(&mut unit, ' ');
        assert(unit@ =~= spaces((k + 1) as nat));
        k += 1;
    }
    let mut printer = Printer { unit, out: String::new() };
    let top = String::new();
    printer.print_items(&doc.items, &top);
    printer.print_comments(&doc.trailing, &top);
    let ghost raw = printer.out@;
    assert(raw =~= items_text(doc.items@, seq![], spaces(opts.indent_width as nat))
        + comments_text(doc.trailing@, seq![]));
    let cs = chars_of(printer.out.as_str());
    let mut n = cs.len();
    assert(cs@.take(n as int) =~= raw);
    while n >= 2 && cs[n - 1] == '\n' && cs[n - 2] == '\n'
        invariant
            n <= cs.len(),
            cs@ == raw,
            end_normalized(cs@.take(n as int)) == end_normalized(raw),
        decreases n,
    {
        assert(cs@.take(n as int).drop_last() =~= cs@.take(n - 1));
        n -= 1;
    }
    let mut out = string_of_range(cs.as_slice(), 0, n);
    assert(out@ =~= cs@.take(n as int));
    if n > 0 && cs[n - 1] != '\n' {
        push_char(&mut out, '\n');
    }
    out
}

} // verus!
