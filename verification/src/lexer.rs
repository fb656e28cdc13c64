//! The lexer: source text to a flat `Vec<Token>`, comments included as
//! trivia. It runs eagerly, which gives the parser lookahead by index.
//!
//! Operators need spaces around them (`base * 2`, not `base*2`), but `+`
//! and `-` stay embeddable unspaced (`SUPER+Return`, `workspace-$i`),
//! because those are common in bare-string "combo" tokens. `*`, `/`, `%`
//! and the comparison operators are the ones that would silently produce a
//! confusing bare word, so those are the ones that are refused when
//! squeezed between two word characters.

use vstd::prelude::*;
use crate::diagnostic::SyntaxError;
use crate::parser::{err_v, ErrV};
use crate::number::{
    after_dot, all_digits, before_dot, decimal_display, float_literal_text, i64_literal, int_text,
    lemma_decimal_display_fixed, lemma_float_literal_text_fixed,
    lemma_int_text_round_trip, lemma_nat_text_digits, parse_i64,
};
use crate::span::Span;
use crate::text::{
    byte_len, chars_of, is_ascii_digit, is_ascii_hexdigit, is_digit, is_hex, is_whitespace, is_ws,
    len_utf8, lemma_byte_len_mono, lemma_byte_len_take_step, push_char, string_of_range,
};
use crate::token::{
    fixed_text, keyword_chars, keyword_of, CommentStyle, Token, TokenKind,
};

verus! {

// ---------------------------------------------------------------------
// What a token's text is
// ---------------------------------------------------------------------

pub open spec fn hard_delim(c: char) -> bool {
    c == '(' || c == ')' || c == '[' || c == ']' || c == '{' || c == '}' || c == ','
        || c == '"' || c == '\'' || c == '@' || c == '=' || c == '#'
}

/// A character that can stand in a bare word.
pub open spec fn word_char(c: char) -> bool {
    !is_ws(c) && !hard_delim(c)
}

pub open spec fn is_word(t: Seq<char>) -> bool {
    t.len() > 0 && forall|k: int| 0 <= k < t.len() ==> word_char(#[trigger] t[k])
}

/// `digits.digits`, with digits on both sides of a single point.
pub open spec fn plain_float(t: Seq<char>) -> bool {
    &&& t.contains('.')
    &&& before_dot(t).len() > 0
    &&& after_dot(t).len() > 0
    &&& all_digits(before_dot(t))
    &&& all_digits(after_dot(t))
}

/// Only digits and points.
pub open spec fn amount_chars(s: Seq<char>) -> bool {
    s.len() > 0 && forall|k: int| 0 <= k < s.len() ==> is_digit(#[trigger] s[k]) || s[k] == '.'
}

/// Splits `600ms` / `1.5s` / `2m` into the amount and the unit, trying the
/// units in the order `ms`, `s`, `m`.
pub open spec fn duration_split(t: Seq<char>) -> Option<(Seq<char>, Seq<char>)> {
    if t.len() >= 2 && t[t.len() - 2] == 'm' && t[t.len() - 1] == 's' && amount_chars(
        t.take(t.len() - 2),
    ) {
        Some((t.take(t.len() - 2), "ms"@))
    } else if t.len() >= 1 && t[t.len() - 1] == 's' && amount_chars(t.drop_last()) {
        Some((t.drop_last(), "s"@))
    } else if t.len() >= 1 && t[t.len() - 1] == 'm' && amount_chars(t.drop_last()) {
        Some((t.drop_last(), "m"@))
    } else {
        None
    }
}

/// A run of digits and points that the standard float parser accepts: at most one
/// point and at least one digit.
pub open spec fn decimal_amount(s: Seq<char>) -> bool {
    &&& amount_chars(s)
    &&& (s.contains('.') ==> !after_dot(s).contains('.'))
    &&& exists|k: int| 0 <= k < s.len() && is_digit(#[trigger] s[k])
}

/// The token that the bare word `t` reads as: a keyword, an integer, a
/// float, a duration, or else a bare word.
pub open spec fn word_kind(t: Seq<char>, k: TokenKind) -> bool {
    if keyword_of(t) is Some {
        k == keyword_of(t)->0
    } else if i64_literal(t) is Some {
        k == TokenKind::Int(i64_literal(t)->0 as i64)
    } else if plain_float(t) {
        k matches TokenKind::Float(s) && s@ == t
    } else if duration_split(t) is Some && decimal_amount((duration_split(t)->0).0) {
        k matches TokenKind::DurationLit(a, u) && a@ == (duration_split(t)->0).0 && u@
            == (duration_split(t)->0).1
    } else {
        k matches TokenKind::BareWord(w) && w@ == t
    }
}

/// What an escape sequence `\e` stands for in a quoted string.
pub open spec fn escape_value(e: char) -> Seq<char> {
    if e == '"' {
        seq!['"']
    } else if e == '\'' {
        seq!['\'']
    } else if e == '\\' {
        seq!['\\']
    } else if e == 'n' {
        seq!['\n']
    } else if e == 't' {
        seq!['\t']
    } else if e == 'r' {
        seq!['\r']
    } else {
        seq!['\\', e]
    }
}

pub open spec fn prepend(p: Seq<char>, o: Option<Seq<char>>) -> Option<Seq<char>> {
    match o {
        Some(r) => Some(p + r),
        None => None,
    }
}

/// The text that the body of a string quoted with `q` stands for, or `None`
/// when the body holds an unescaped `q` or ends in the middle of an escape.
pub open spec fn unescape(body: Seq<char>, q: char) -> Option<Seq<char>>
    decreases body.len(),
{
    if body.len() == 0 {
        Some(seq![])
    } else if body[0] == q {
        None
    } else if body[0] == '\\' {
        if body.len() < 2 {
            None
        } else {
            prepend(escape_value(body[1]), unescape(body.skip(2), q))
        }
    } else {
        prepend(seq![body[0]], unescape(body.drop_first(), q))
    }
}

pub open spec fn all_hex(s: Seq<char>) -> bool {
    forall|k: int| 0 <= k < s.len() ==> is_hex(#[trigger] s[k])
}

/// `lex` is the source text of a token of kind `k`.
pub open spec fn lexeme_of(k: TokenKind, lex: Seq<char>) -> bool {
    match k {
        TokenKind::QuotedString(v) => {
            &&& lex.len() >= 2
            &&& (lex[0] == '"' || lex[0] == '\'')
            &&& lex.last() == lex[0]
            &&& unescape(lex.subrange(1, lex.len() - 1), lex[0]) == Some(v@)
        },
        TokenKind::ColorLit(h) => lex == seq!['#'] + h@ && (h@.len() == 6 || h@.len() == 8)
            && all_hex(h@),
        TokenKind::Comment(t, CommentStyle::Hash) => lex == seq!['#'] + t@ && !t@.contains(
            '\n',
        ),
        TokenKind::Comment(t, CommentStyle::DashDash) => lex == seq!['-', '-'] + t@
            && !t@.contains('\n'),
        TokenKind::Comment(t, CommentStyle::Block) => lex == seq!['-', '-', '[', '['] + t@
            + seq![']', ']'],
        TokenKind::Eof => lex.len() == 0,
        TokenKind::ScriptBody => false,
        _ => fixed_text(k) == Some(lex) || (is_word(lex) && word_kind(lex, k)),
    }
}

pub open spec fn all_ws(s: Seq<char>) -> bool {
    forall|k: int| 0 <= k < s.len() ==> is_ws(#[trigger] s[k])
}

pub open spec fn byte_at(text: Seq<char>, i: int) -> int {
    byte_len(text.take(i)) as int
}

pub open spec fn prev_end(cr: Seq<(int, int)>, i: int) -> int {
    if i == 0 {
        0
    } else {
        cr[i - 1].1
    }
}

/// Token `i` covers the characters `cr[i]` of `text`, is separated from the
/// previous one by white space only, has the byte span of those characters,
/// and is what those characters read as.
pub open spec fn token_at(text: Seq<char>, toks: Seq<Token>, cr: Seq<(int, int)>, i: int) -> bool {
    &&& prev_end(cr, i) <= cr[i].0 <= cr[i].1 <= text.len()
    &&& all_ws(text.subrange(prev_end(cr, i), cr[i].0))
    &&& toks[i].span.start == byte_at(text, cr[i].0)
    &&& toks[i].span.end == byte_at(text, cr[i].1)
    &&& lexeme_of(toks[i].kind, text.subrange(cr[i].0, cr[i].1))
}

pub open spec fn lexed_as(text: Seq<char>, toks: Seq<Token>, cr: Seq<(int, int)>) -> bool {
    &&& toks.len() == cr.len()
    &&& forall|i: int| 0 <= i < toks.len() ==> #[trigger] token_at(text, toks, cr, i)
}

/// `toks` is the complete token stream of `text`: every character is white
/// space or part of exactly one token, in order, each token is what its
/// characters read as, and the stream ends with the only `Eof`.
pub open spec fn tokenized(text: Seq<char>, toks: Seq<Token>) -> bool {
    exists|cr: Seq<(int, int)>|
        {
            &&& #[trigger] lexed_as(text, toks, cr)
            &&& toks.len() > 0
            &&& toks.last().kind is Eof
            &&& cr.last() == (text.len() as int, text.len() as int)
            &&& forall|i: int| 0 <= i < toks.len() - 1 ==> !(#[trigger] toks[i].kind is Eof)
        }
}

/// The errors that the lexer reports.
pub open spec fn lex_error(e: SyntaxError) -> bool {
    e is UnterminatedString || e is UnterminatedComment || e is SqueezedOperator
}

// ---------------------------------------------------------------------
// The scanner, step by step
// ---------------------------------------------------------------------

/// A token kind with its texts as characters (kinds that carry no text,
/// and integers, as they are).
pub enum KindV {
    Plain(TokenKind),
    Float(Seq<char>),
    Quoted(Seq<char>),
    Bare(Seq<char>),
    Color(Seq<char>),
    Duration(Seq<char>, Seq<char>),
    Comment(Seq<char>, CommentStyle),
}

pub open spec fn kind_view(k: TokenKind) -> KindV {
    match k {
        TokenKind::Float(s) => KindV::Float(s@),
        TokenKind::QuotedString(s) => KindV::Quoted(s@),
        TokenKind::BareWord(w) => KindV::Bare(w@),
        TokenKind::ColorLit(h) => KindV::Color(h@),
        TokenKind::DurationLit(a, u) => KindV::Duration(a@, u@),
        TokenKind::Comment(t, st) => KindV::Comment(t@, st),
        _ => KindV::Plain(k),
    }
}

pub open spec fn toks_v(s: Seq<Token>) -> Seq<(KindV, Span)> {
    s.map_values(|t: Token| (kind_view(t.kind), t.span))
}

pub open spec fn span_at(text: Seq<char>, a: int, b: int) -> Span {
    Span { start: byte_at(text, a) as u32, end: byte_at(text, b) as u32 }
}

/// The first character at or after `i` that is not white space.
pub open spec fn skip_ws(text: Seq<char>, i: int) -> int
    decreases text.len() - i,
{
    if 0 <= i < text.len() && is_ws(text[i]) {
        skip_ws(text, i + 1)
    } else {
        i
    }
}

/// The end of the run of hex digits from `i`.
pub open spec fn hex_run_end(text: Seq<char>, i: int) -> int
    decreases text.len() - i,
{
    if 0 <= i < text.len() && is_hex(text[i]) {
        hex_run_end(text, i + 1)
    } else {
        i
    }
}

/// The first line break at or after `i` (or the end of the text).
pub open spec fn line_end(text: Seq<char>, i: int) -> int
    decreases text.len() - i,
{
    if 0 <= i < text.len() && text[i] != '\n' {
        line_end(text, i + 1)
    } else {
        i
    }
}

/// The first `]]` at or after `j`.
pub open spec fn block_close(text: Seq<char>, j: int) -> Option<int>
    decreases text.len() - j,
{
    if !(0 <= j < text.len()) {
        None
    } else if text[j] == ']' && j + 1 < text.len() && text[j + 1] == ']' {
        Some(j)
    } else {
        block_close(text, j + 1)
    }
}

/// The closing quote of a string body from `i`, stepping over escapes.
pub open spec fn quote_close(text: Seq<char>, i: int, q: char) -> Option<int>
    decreases text.len() - i,
{
    if !(0 <= i < text.len()) {
        None
    } else if text[i] == q {
        Some(i)
    } else if text[i] == '\\' {
        if i + 1 >= text.len() {
            None
        } else {
            quote_close(text, i + 2, q)
        }
    } else {
        quote_close(text, i + 1, q)
    }
}

/// The operator at `i`: its length, its kind, and whether squeezing it
/// between word characters is an error.
pub open spec fn op_at(text: Seq<char>, i: int) -> Option<(usize, TokenKind, bool)> {
    let c = text[i];
    let two = i + 1 < text.len() && text[i + 1] == '=';
    if c == '<' && two {
        Some((2usize, TokenKind::LtEq, true))
    } else if c == '>' && two {
        Some((2usize, TokenKind::GtEq, true))
    } else if c == '~' && two {
        Some((2usize, TokenKind::NotEq, true))
    } else if c == '+' {
        Some((1usize, TokenKind::Plus, false))
    } else if c == '-' {
        Some((1usize, TokenKind::Minus, false))
    } else if c == '*' {
        Some((1usize, TokenKind::Star, true))
    } else if c == '/' {
        Some((1usize, TokenKind::Slash, true))
    } else if c == '%' {
        Some((1usize, TokenKind::Percent, true))
    } else if c == '<' {
        Some((1usize, TokenKind::Lt, true))
    } else if c == '>' {
        Some((1usize, TokenKind::Gt, true))
    } else {
        None
    }
}

/// `--` at `i`: a comment begins there.
pub open spec fn dashes_at(text: Seq<char>, i: int) -> bool {
    text[i] == '-' && i + 1 < text.len() && text[i + 1] == '-'
}

/// Where the run of word characters from `i` ends: at white space, a
/// delimiter, a comment, or the end of the text.
pub open spec fn run_end(text: Seq<char>, i: int) -> int
    decreases text.len() - i,
{
    if !(0 <= i < text.len()) || !word_char(text[i]) || dashes_at(text, i) {
        i
    } else {
        run_end(text, i + 1)
    }
}

/// Where a bare word that began at `start` ends, scanning from `i`: at
/// white space, a delimiter, a comment, or an operator not squeezed
/// against a word character. `+` and `-` squeezed that way are part of the
/// word; any other squeezed operator is an error, which quotes the word up
/// to the end of the operand after the operator and suggests it with that
/// operator spaced.
pub open spec fn word_end(text: Seq<char>, start: int, i: int) -> Result<int, ErrV>
    decreases text.len() - i,
{
    if !(0 <= i < text.len()) {
        Ok(i)
    } else if is_ws(text[i]) || hard_delim(text[i]) || dashes_at(text, i) {
        Ok(i)
    } else {
        match op_at(text, i) {
            Some((len, op, err)) => {
                let after = i + len;
                if after < text.len() && word_char(text[after]) && !dashes_at(text, after) {
                    if err {
                        Err(
                            ErrV::SqueezedOperator {
                                original: text.subrange(start, run_end(text, after)),
                                suggestion: text.subrange(start, i) + seq![' '] + crate::token::describe_text(op)
                                    + seq![' '] + text.subrange(after, run_end(text, after)),
                                span: span_at(text, i, after),
                            },
                        )
                    } else {
                        word_end(text, start, after)
                    }
                } else {
                    Ok(i)
                }
            },
            None => word_end(text, start, i + 1),
        }
    }
}

/// The token that a bare word reads as.
pub open spec fn word_kind_v(t: Seq<char>) -> KindV {
    if keyword_of(t) is Some {
        KindV::Plain(keyword_of(t)->0)
    } else if i64_literal(t) is Some {
        KindV::Plain(TokenKind::Int(i64_literal(t)->0 as i64))
    } else if plain_float(t) {
        KindV::Float(t)
    } else if duration_split(t) is Some && decimal_amount((duration_split(t)->0).0) {
        KindV::Duration((duration_split(t)->0).0, (duration_split(t)->0).1)
    } else {
        KindV::Bare(t)
    }
}


/// A word that begins with a digit is no keyword.
proof fn lemma_digit_word_no_keyword(t: Seq<char>)
    requires
        t.len() > 0,
        is_digit(t[0]),
    ensures
        keyword_of(t) is None,
{
    reveal_strlit("if");
    reveal_strlit("elseif");
    reveal_strlit("else");
    reveal_strlit("for");
    reveal_strlit("while");
    reveal_strlit("do");
    reveal_strlit("end");
    reveal_strlit("return");
    reveal_strlit("local");
    reveal_strlit("fn");
    reveal_strlit("script");
    reveal_strlit("include");
    reveal_strlit("and");
    reveal_strlit("or");
    reveal_strlit("not");
    reveal_strlit("true");
    reveal_strlit("false");
    reveal_strlit("nil");
}

/// An integer literal as the formatter writes it reads back as the same
/// integer token.
pub proof fn lemma_int_literal_round_trip(n: i64)
    requires
        n >= 0,
    ensures
        word_kind_v(int_text(n as int)) == KindV::Plain(TokenKind::Int(n)),
{
    lemma_int_text_round_trip(n);
    lemma_nat_text_digits(n as nat);
    lemma_digit_word_no_keyword(int_text(n as int));
}

/// A float literal as the formatter writes it reads back as a float
/// literal, which the formatter writes the same way again.
pub proof fn lemma_float_literal_round_trip(s: Seq<char>)
    requires
        plain_float(s),
    ensures
        word_kind_v(float_literal_text(s)) == KindV::Float(float_literal_text(s)),
        float_literal_text(float_literal_text(s)) == float_literal_text(s),
{
    lemma_float_literal_text_fixed(s);
    let t = float_literal_text(s);
    let c = before_dot(t);
    t.index_of_first_ensures('.');
    assert(c == t.take(t.index_of_first('.')->0));
    assert(t[0] == c[0]);
    lemma_digit_word_no_keyword(t);
    let k = t.index_of_first('.')->0;
    assert(!is_digit(t[k]));
    let signed = t.len() > 0 && (t[0] == '-' || t[0] == '+');
    assert(!signed);
    assert(!all_digits(t));
    assert(i64_literal(t) is None);
}


/// A decimal amount has digits on both sides of its point, if any.
proof fn lemma_amount_parts(a: Seq<char>)
    requires
        decimal_amount(a),
    ensures
        all_digits(before_dot(a)),
        all_digits(after_dot(a)),
{
    if a.contains('.') {
        a.index_of_first_ensures('.');
        let i = a.index_of_first('.')->0;
        assert forall|k: int| 0 <= k < before_dot(a).len() implies is_digit(#[trigger] before_dot(a)[k]) by {
            assert(before_dot(a)[k] == a[k]);
        }
        assert forall|k: int| 0 <= k < after_dot(a).len() implies is_digit(#[trigger] after_dot(a)[k]) by {
            assert(after_dot(a)[k] == a[i + 1 + k]);
            if after_dot(a)[k] == '.' {
                assert(after_dot(a).contains('.'));
            }
        }
    } else {
        assert forall|k: int| 0 <= k < a.len() implies is_digit(#[trigger] a[k]) by {
            if a[k] == '.' {
                assert(a.contains('.'));
            }
        }
    }
}

/// A duration literal as the formatter writes it (its amount spelled
/// canonically, then its unit) reads back as a duration with that amount
/// and unit, which the formatter writes the same way again.
pub proof fn lemma_duration_literal_round_trip(a: Seq<char>, u: Seq<char>)
    requires
        decimal_amount(a),
        u == "ms"@ || u == "s"@ || u == "m"@,
    ensures
        word_kind_v(decimal_display(a) + u) == KindV::Duration(decimal_display(a), u),
        decimal_display(decimal_display(a)) == decimal_display(a),
{
    reveal_strlit("ms");
    reveal_strlit("s");
    reveal_strlit("m");
    lemma_amount_parts(a);
    lemma_decimal_display_fixed(a);
    let d = decimal_display(a);
    let t = d + u;
    let n = t.len() as int;
    assert(t[0] == d[0]);
    lemma_digit_word_no_keyword(t);
    assert(t[n - 1] == u.last());
    assert(!is_digit(t[n - 1]));
    assert(!all_digits(t));
    assert(i64_literal(t) is None);
    if t.contains('.') {
        t.index_of_first_ensures('.');
        let i = t.index_of_first('.')->0;
        assert(i < n - 1);
        assert(after_dot(t).last() == t[n - 1]);
        assert(!all_digits(after_dot(t)));
    }
    assert(!plain_float(t));
    assert(amount_chars(d));
    assert(decimal_amount(d));
    if u == "ms"@ {
        assert(t.take(n - 2) =~= d);
    } else {
        assert(t[n - 2] == d.last());
        assert(t.drop_last() =~= d);
    }
    assert(duration_split(t) == Some((d, u)));
}

/// The hex run from `i` of `pre + h + rest` ends where `h` ends, when `h`
/// is all hex digits and `rest` does not begin with one.
proof fn lemma_hex_run_of(pre: Seq<char>, h: Seq<char>, rest: Seq<char>, k: int)
    requires
        0 <= k <= h.len(),
        forall|j: int| 0 <= j < h.len() ==> is_hex(#[trigger] h[j]),
        rest.len() == 0 || !is_hex(rest[0]),
    ensures
        hex_run_end(pre + h + rest, pre.len() + k) == pre.len() + h.len(),
    decreases h.len() - k,
{
    let t = pre + h + rest;
    if k < h.len() {
        assert(t[pre.len() + k] == h[k]);
        lemma_hex_run_of(pre, h, rest, k + 1);
    } else if rest.len() > 0 {
        assert(t[(pre.len() + h.len()) as int] == rest[0]);
    }
}

/// `#` followed by a run of exactly 6 or 8 hexadecimal digits (`#RRGGBB`,
/// `#RRGGBBAA`), and no further one, is a colour literal of those digits;
/// followed by a run of any other length it starts a comment.
pub proof fn lemma_hash_reads_colors(h: Seq<char>, rest: Seq<char>)
    requires
        forall|j: int| 0 <= j < h.len() ==> is_hex(#[trigger] h[j]),
        rest.len() == 0 || !is_hex(rest[0]),
    ensures
        (h.len() == 6 || h.len() == 8) ==> sp_next(seq!['#'] + h + rest, 0) == Ok::<(KindV, int), ErrV>(
            (KindV::Color(h), 1 + h.len() as int)),
        !(h.len() == 6 || h.len() == 8) ==> sp_next(seq!['#'] + h + rest, 0) matches Ok(
            (KindV::Comment(_, CommentStyle::Hash), _),
        ),
{
    let t = seq!['#'] + h + rest;
    lemma_hex_run_of(seq!['#'], h, rest, 0);
    assert(t[0] == '#');
    assert(t.subrange(1, 1 + h.len() as int) =~= h);
}

/// A colour written as `#` and its hex text, with or without the alpha
/// channel, reads back as a colour literal of that text.
pub proof fn lemma_color_text_lexes(c: crate::value::ColorValue, include_alpha: bool, rest: Seq<char>)
    requires
        rest.len() == 0 || !is_hex(rest[0]),
    ensures
        sp_next(seq!['#'] + crate::value::color_hex(c, include_alpha) + rest, 0) == Ok::<(KindV, int), ErrV>(
            (KindV::Color(crate::value::color_hex(c, include_alpha)), 1 + crate::value::color_hex(c, include_alpha).len() as int),
        ),
{
    crate::value::lemma_color_hex_digits(c, include_alpha);
    lemma_hash_reads_colors(crate::value::color_hex(c, include_alpha), rest);
}

/// A word reads as a duration only when it ends in a unit, `ms`, `s` or
/// `m`, right after its amount: units are never guessed.
pub proof fn lemma_duration_has_unit(t: Seq<char>)
    ensures
        word_kind_v(t) matches KindV::Duration(a, u) ==> t == a + u && (u == "ms"@ || u == "s"@ || u
            == "m"@),
{
    reveal_strlit("ms");
    reveal_strlit("s");
    reveal_strlit("m");
    if word_kind_v(t) is Duration && keyword_of(t) is None && i64_literal(t) is None && !plain_float(t) {
        let n = t.len() as int;
        if n >= 2 && t[n - 2] == 'm' && t[n - 1] == 's' && amount_chars(t.take(n - 2)) {
            assert(t =~= t.take(n - 2) + "ms"@);
        } else if n >= 1 && t[n - 1] == 's' && amount_chars(t.drop_last()) {
            assert(t =~= t.drop_last() + "s"@);
        } else if n >= 1 && t[n - 1] == 'm' && amount_chars(t.drop_last()) {
            assert(t =~= t.drop_last() + "m"@);
        }
    }
}

/// A quoted string from `start`.
pub open spec fn sp_quoted(text: Seq<char>, start: int, q: char) -> Result<(KindV, int), ErrV> {
    match quote_close(text, start + 1, q) {
        None => Err(ErrV::UnterminatedString { span: span_at(text, start, text.len() as int) }),
        Some(j) => Ok((KindV::Quoted(unescape(text.subrange(start + 1, j), q)->0), j + 1)),
    }
}

/// `#` from `start`: a color when a run of exactly 6 or 8 hex digits
/// follows, else a comment to the end of the line.
pub open spec fn sp_hash(text: Seq<char>, start: int) -> (KindV, int) {
    let r = hex_run_end(text, start + 1);
    if r - (start + 1) == 6 || r - (start + 1) == 8 {
        (KindV::Color(text.subrange(start + 1, r)), r)
    } else {
        let e = line_end(text, start + 1);
        (KindV::Comment(text.subrange(start + 1, e), CommentStyle::Hash), e)
    }
}

/// `--` from `start`: a block comment to `]]` after `--[[`, else a line
/// comment.
pub open spec fn sp_dash(text: Seq<char>, start: int) -> Result<(KindV, int), ErrV> {
    let p = start + 2;
    if p + 1 < text.len() && text[p] == '[' && text[p + 1] == '[' {
        match block_close(text, p + 2) {
            None => Err(ErrV::UnterminatedComment { span: span_at(text, start, text.len() as int) }),
            Some(j) => Ok((KindV::Comment(text.subrange(p + 2, j), CommentStyle::Block), j + 2)),
        }
    } else {
        let e = line_end(text, p);
        Ok((KindV::Comment(text.subrange(p, e), CommentStyle::DashDash), e))
    }
}

/// An operator, or a bare word, from `start`.
pub open spec fn sp_word(text: Seq<char>, start: int) -> Result<(KindV, int), ErrV> {
    match op_at(text, start) {
        Some((len, k, _)) => Ok((KindV::Plain(k), start + len)),
        None => match word_end(text, start, start + 1) {
            Err(e) => Err(e),
            Ok(i) => Ok((word_kind_v(text.subrange(start, i)), i)),
        },
    }
}

/// The token that starts at `start` (a character that is no white space):
/// its kind and where it ends.
pub open spec fn sp_next(text: Seq<char>, start: int) -> Result<(KindV, int), ErrV> {
    let c = text[start];
    if c == '(' {
        Ok((KindV::Plain(TokenKind::LParen), start + 1))
    } else if c == ')' {
        Ok((KindV::Plain(TokenKind::RParen), start + 1))
    } else if c == '[' {
        Ok((KindV::Plain(TokenKind::LBracket), start + 1))
    } else if c == ']' {
        Ok((KindV::Plain(TokenKind::RBracket), start + 1))
    } else if c == '{' {
        Ok((KindV::Plain(TokenKind::LBrace), start + 1))
    } else if c == '}' {
        Ok((KindV::Plain(TokenKind::RBrace), start + 1))
    } else if c == ',' {
        Ok((KindV::Plain(TokenKind::Comma), start + 1))
    } else if c == '@' {
        Ok((KindV::Plain(TokenKind::At), start + 1))
    } else if c == '"' || c == '\'' {
        sp_quoted(text, start, c)
    } else if c == '#' {
        Ok(sp_hash(text, start))
    } else if c == '=' {
        if start + 1 < text.len() && text[start + 1] == '=' {
            Ok((KindV::Plain(TokenKind::EqEq), start + 2))
        } else {
            Ok((KindV::Plain(TokenKind::Eq), start + 1))
        }
    } else if dashes_at(text, start) {
        sp_dash(text, start)
    } else {
        sp_word(text, start)
    }
}

/// The tokens of `text` from `pos` on, after the tokens `acc` already
/// read, ending with `Eof`; or the first error.
pub open spec fn sp_lex(text: Seq<char>, pos: int, acc: Seq<(KindV, Span)>) -> Result<
    Seq<(KindV, Span)>,
    ErrV,
>
    decreases text.len() - pos,
{
    let start = skip_ws(text, pos);
    if !(0 <= pos <= start < text.len()) {
        let n = text.len() as int;
        Ok(acc.push((KindV::Plain(TokenKind::Eof), span_at(text, n, n))))
    } else {
        match sp_next(text, start) {
            Err(e) => Err(e),
            Ok((k, end)) => if start < end <= text.len() {
                sp_lex(text, end, acc.push((k, span_at(text, start, end))))
            } else {
                Err(ErrV::Other)
            },
        }
    }
}

/// What lexing `text` gives: its tokens, each with its kind and byte span,
/// ending with `Eof`, or the first error.
pub open spec fn sp_tokens(text: Seq<char>) -> Result<Seq<(KindV, Span)>, ErrV> {
    sp_lex(text, 0, seq![])
}

pub open spec fn scan_res_v(r: Result<(TokenKind, usize), SyntaxError>) -> Result<(KindV, int), ErrV> {
    match r {
        Ok((k, end)) => Ok((kind_view(k), end as int)),
        Err(e) => Err(err_v(e)),
    }
}

pub open spec fn toks_res_v(r: Result<Vec<Token>, SyntaxError>) -> Result<Seq<(KindV, Span)>, ErrV> {
    match r {
        Ok(ts) => Ok(toks_v(ts@)),
        Err(e) => Err(err_v(e)),
    }
}

// ---------------------------------------------------------------------
// Word classification
// ---------------------------------------------------------------------

fn is_hard_delim(c: char) -> (b: bool)
    ensures
        b == hard_delim(c),
{
    c == '(' || c == ')' || c == '[' || c == ']' || c == '{' || c == '}' || c == ',' || c == '"'
        || c == '\'' || c == '@' || c == '=' || c == '#'
}

/// A character that could continue a bare word (used to decide whether an
/// operator is squeezed against what follows it).
fn continues_word(c: char) -> (b: bool)
    ensures
        b == word_char(c),
{
    !is_whitespace(c) && !is_hard_delim(c)
}

fn all_digits_in(t: &[char], from: usize, to: usize) -> (b: bool)
    requires
        from <= to <= t.len(),
    ensures
        b == all_digits(t@.subrange(from as int, to as int)),
{
    let mut i = from;
    while i < to
        invariant
            from <= i <= to <= t.len(),
            forall|k: int| from <= k < i ==> is_digit(t@[k]),
        decreases to - i,
    {
        if !is_ascii_digit(t[i]) {
            assert(!is_digit(t@.subrange(from as int, to as int)[i - from]));
            return false;
        }
        i += 1;
    }
    assert forall|k: int| 0 <= k < to - from implies is_digit(
        #[trigger] t@.subrange(from as int, to as int)[k],
    ) by {
        assert(is_digit(t@[from + k]));
    }
    true
}

fn is_plain_float(text: &[char]) -> (b: bool)
    ensures
        b == plain_float(text@),
{
    match crate::number::find_char(text, '.') {
        None => false,
        Some(d) => {
            assert(before_dot(text@) =~= text@.subrange(0, d as int));
            assert(after_dot(text@) =~= text@.subrange(d + 1, text@.len() as int));
            d > 0 && d + 1 < text.len() && all_digits_in(text, 0, d) && all_digits_in(
                text,
                d + 1,
                text.len(),
            )
        },
    }
}

fn amount_chars_in(t: &[char], to: usize) -> (b: bool)
    requires
        to <= t.len(),
    ensures
        b == amount_chars(t@.take(to as int)),
{
    if to == 0 {
        return false;
    }
    let mut i: usize = 0;
    while i < to
        invariant
            i <= to <= t.len(),
            forall|k: int| 0 <= k < i ==> is_digit(t@[k]) || t@[k] == '.',
        decreases to - i,
    {
        if !is_ascii_digit(t[i]) && t[i] != '.' {
            let ghost c = t@.take(to as int)[i as int];
            assert(!(is_digit(c) || c == '.'));
            return false;
        }
        i += 1;
    }
    assert forall|k: int| 0 <= k < to implies is_digit(#[trigger] t@.take(to as int)[k])
        || t@.take(to as int)[k] == '.' by {
        assert(t@.take(to as int)[k] == t@[k]);
    }
    true
}

/// Splits a token like `600ms` / `1.5s` / `2m` into the length of its
/// amount and its unit. A bare number is never a duration.
fn split_duration(text: &[char]) -> (r: Option<(usize, &'static str)>)
    ensures
        r is None <==> duration_split(text@) is None,
        r matches Some((n, u)) ==> n <= text.len() && duration_split(text@) == Some(
            (text@.take(n as int), u@),
        ),
{
    let n = text.len();
    if n >= 2 && text[n - 2] == 'm' && text[n - 1] == 's' && amount_chars_in(text, n - 2) {
        return Some((n - 2, "ms"));
    }
    if n >= 1 && text[n - 1] == 's' {
        assert(text@.drop_last() =~= text@.take(n - 1));
        if amount_chars_in(text, n - 1) {
            return Some((n - 1, "s"));
        }
    }
    if n >= 1 && text[n - 1] == 'm' {
        assert(text@.drop_last() =~= text@.take(n - 1));
        if amount_chars_in(text, n - 1) {
            return Some((n - 1, "m"));
        }
    }
    proof {
        if n >= 1 {
            assert(text@.drop_last() =~= text@.take(n - 1));
        }
    }
    None
}

/// Does the standard float parser accept the digits-and-points run `t[..to]`?
fn decimal_amount_ok(t: &[char], to: usize) -> (b: bool)
    requires
        to <= t.len(),
        amount_chars(t@.take(to as int)),
    ensures
        b == decimal_amount(t@.take(to as int)),
{
    let ghost s = t@.take(to as int);
    let mut dots: usize = 0;
    let mut first_dot: usize = 0;
    let mut digits = false;
    let mut i: usize = 0;
    while i < to
        invariant
            i <= to <= t.len(),
            s == t@.take(to as int),
            amount_chars(s),
            dots <= i,
            dots == 0 ==> forall|k: int| 0 <= k < i ==> s[k] != '.',
            dots >= 1 ==> first_dot < i && s[first_dot as int] == '.' && forall|k: int|
                0 <= k < first_dot ==> s[k] != '.',
            dots == 1 ==> forall|k: int| first_dot < k < i ==> s[k] != '.',
            dots >= 2 ==> exists|k: int| first_dot < k < i && s[k] == '.',
            digits <==> exists|k: int| 0 <= k < i && is_digit(#[trigger] s[k]),
        decreases to - i,
    {
        assert(s[i as int] == t@[i as int]);
        if t[i] == '.' {
            if dots == 1 {
                assert(first_dot < i && s[i as int] == '.');
            }
            if dots == 0 {
                first_dot = i;
            }
            if dots < 2 {
                dots += 1;
            }
        } else {
            assert(is_digit(s[i as int]));
            digits = true;
        }
        i += 1;
    }
    proof {
        if dots >= 1 {
            assert(s.contains('.'));
            s.index_of_first_ensures('.');
            assert(s.index_of_first('.') == Some(first_dot as int));
            let a = after_dot(s);
            assert(a =~= s.skip(first_dot + 1));
            if dots == 1 {
                assert(!a.contains('.')) by {
                    if a.contains('.') {
                        let j = choose|j: int| 0 <= j < a.len() && a[j] == '.';
                        assert(s[first_dot + 1 + j] == '.');
                    }
                }
            } else {
                let k = choose|k: int| first_dot < k < to && s[k] == '.';
                assert(a[k - first_dot - 1] == '.');
                assert(a.contains('.'));
            }
        } else {
            assert(!s.contains('.'));
        }
    }
    digits && dots <= 1
}

/// The token that a bare word reads as.
fn classify_word(text: &[char]) -> (k: TokenKind)
    ensures
        word_kind(text@, k),
        kind_view(k) == word_kind_v(text@),
{
    if let Some(kw) = keyword_chars(text) {
        return kw;
    }
    if let Some(i) = parse_i64(text) {
        return TokenKind::Int(i);
    }
    if is_plain_float(text) {
        let f = string_of_range(text, 0, text.len());
        assert(f@ =~= text@);
        return TokenKind::Float(f);
    }
    if let Some((n, unit)) = split_duration(text) {
        if decimal_amount_ok(text, n) {
            let amount = string_of_range(text, 0, n);
            assert(amount@ =~= text@.take(n as int));
            return TokenKind::DurationLit(amount, unit.to_owned());
        }
    }
    let w = string_of_range(text, 0, text.len());
    assert(w@ =~= text@);
    TokenKind::BareWord(w)
}

// ---------------------------------------------------------------------
// The scanner
// ---------------------------------------------------------------------

struct Lexer {
    cs: Vec<char>,
    offs: Vec<u32>,
}

impl Lexer {
    spec fn wf(&self) -> bool {
        &&& self.offs@.len() == self.cs@.len() + 1
        &&& forall|i: int| 0 <= i <= self.cs@.len() ==> #[trigger] self.offs@[i] == byte_at(self.cs@, i)
    }

    fn new(src: &str) -> (l: Self)
        requires
            byte_len(src@) <= u32::MAX,
        ensures
            l.wf(),
            l.cs@ == src@,
    {
        let cs = chars_of(src);
        let n = cs.len();
        let mut offs: Vec<u32> = Vec::new();
        offs.push(0);
        assert(cs@.take(0) =~= Seq::<char>::empty());
        let mut acc: u32 = 0;
        let mut i: usize = 0;
        while i < n
            invariant
                i <= n == cs@.len(),
                cs@ == src@,
                byte_len(src@) <= u32::MAX,
                offs@.len() == i + 1,
                acc == byte_at(cs@, i as int),
                forall|k: int| 0 <= k <= i ==> #[trigger] offs@[k] == byte_at(cs@, k),
            decreases n - i,
        {
            proof {
                lemma_byte_len_take_step(cs@, i as int);
                crate::text::lemma_byte_len_mono(cs@, i + 1, n as int);
                assert(cs@.take(n as int) =~= cs@);
            }
            acc = acc + len_utf8(cs[i]);
            offs.push(acc);
            i += 1;
        }
        Lexer { cs, offs }
    }

    fn span(&self, a: usize, b: usize) -> (s: Span)
        requires
            self.wf(),
            a <= b <= self.cs@.len(),
        ensures
            s.start == byte_at(self.cs@, a as int),
            s.end == byte_at(self.cs@, b as int),
            s == span_at(self.cs@, a as int, b as int),
    {
        proof {
            lemma_byte_len_mono(self.cs@, a as int, b as int);
        }
        Span::new(self.offs[a], self.offs[b])
    }

    fn skip_whitespace(&self, from: usize) -> (to: usize)
        requires
            from <= self.cs@.len(),
        ensures
            from <= to <= self.cs@.len(),
            all_ws(self.cs@.subrange(from as int, to as int)),
            to < self.cs@.len() ==> !is_ws(self.cs@[to as int]),
            to == skip_ws(self.cs@, from as int),
    {
        let mut i = from;
        while i < self.cs.len() && is_whitespace(self.cs[i])
            invariant
                from <= i <= self.cs@.len(),
                forall|k: int| from <= k < i ==> is_ws(self.cs@[k]),
                skip_ws(self.cs@, i as int) == skip_ws(self.cs@, from as int),
            decreases self.cs@.len() - i,
        {
            i += 1;
        }
        assert forall|k: int| 0 <= k < i - from implies is_ws(
            #[trigger] self.cs@.subrange(from as int, i as int)[k],
        ) by {
            assert(is_ws(self.cs@[from + k]));
        }
        i
    }

    /// Matches an operator starting at `i`: its length, its kind, and
    /// whether squeezing it between two word characters is an error (`*`,
    /// `/`, `%`, comparisons) rather than absorbed into the word (`+`, `-`).
    fn match_operator(&self, i: usize) -> (r: Option<(usize, TokenKind, bool)>)
        requires
            i < self.cs@.len(),
        ensures
            r matches Some((len, k, err)) ==> {
                &&& 1 <= len <= 2
                &&& i + len <= self.cs@.len()
                &&& fixed_text(k) == Some(self.cs@.subrange(i as int, i + len))
                &&& err == !(k is Plus || k is Minus)
                &&& (k is Plus || k is Minus || k is Star || k is Slash || k is Percent
                    || k is Lt || k is Gt || k is LtEq || k is GtEq || k is NotEq)
            },
            r is None ==> !(self.cs@[i as int] == '+' || self.cs@[i as int] == '-'
                || self.cs@[i as int] == '*' || self.cs@[i as int] == '/' || self.cs@[i as int]
                == '%' || self.cs@[i as int] == '<' || self.cs@[i as int] == '>'),
            r == op_at(self.cs@, i as int),
    {
        let c = self.cs[i];
        let n = self.cs.len();
        let two = i + 1 < n && self.cs[i + 1] == '=';
        proof {
            reveal_strlit("<=");
            reveal_strlit(">=");
            reveal_strlit("~=");
            reveal_strlit("+");
            reveal_strlit("-");
            reveal_strlit("*");
            reveal_strlit("/");
            reveal_strlit("%");
            reveal_strlit("<");
            reveal_strlit(">");
        }
        if c == '<' && two {
            assert(self.cs@.subrange(i as int, i + 2) =~= "<="@);
            Some((2, TokenKind::LtEq, true))
        } else if c == '>' && two {
            assert(self.cs@.subrange(i as int, i + 2) =~= ">="@);
            Some((2, TokenKind::GtEq, true))
        } else if c == '~' && two {
            assert(self.cs@.subrange(i as int, i + 2) =~= "~="@);
            Some((2, TokenKind::NotEq, true))
        } else if c == '+' {
            assert(self.cs@.subrange(i as int, i + 1) =~= "+"@);
            Some((1, TokenKind::Plus, false))
        } else if c == '-' {
            assert(self.cs@.subrange(i as int, i + 1) =~= "-"@);
            Some((1, TokenKind::Minus, false))
        } else if c == '*' {
            assert(self.cs@.subrange(i as int, i + 1) =~= "*"@);
            Some((1, TokenKind::Star, true))
        } else if c == '/' {
            assert(self.cs@.subrange(i as int, i + 1) =~= "/"@);
            Some((1, TokenKind::Slash, true))
        } else if c == '%' {
            assert(self.cs@.subrange(i as int, i + 1) =~= "%"@);
            Some((1, TokenKind::Percent, true))
        } else if c == '<' {
            assert(self.cs@.subrange(i as int, i + 1) =~= "<"@);
            Some((1, TokenKind::Lt, true))
        } else if c == '>' {
            assert(self.cs@.subrange(i as int, i + 1) =~= ">"@);
            Some((1, TokenKind::Gt, true))
        } else {
            None
        }
    }
}


proof fn lemma_prepend_assoc(a: Seq<char>, b: Seq<char>, x: Option<Seq<char>>)
    ensures
        prepend(a, prepend(b, x)) == prepend(a + b, x),
{
    if let Some(r) = x {
        assert(a + (b + r) =~= (a + b) + r);
    }
}

fn push_escape(out: &mut String, e: char)
    ensures
        final(out)@ == old(out)@ + escape_value(e),
{
    if e == '"' {
        push_char(out, '"');
    } else if e == '\'' {
        push_char(out, '\'');
    } else if e == '\\' {
        push_char(out, '\\');
    } else if e == 'n' {
        push_char(out, '\n');
    } else if e == 't' {
        push_char(out, '\t');
    } else if e == 'r' {
        push_char(out, '\r');
    } else {
        push_char(out, '\\');
        push_char(out, e);
    }
    assert(final(out)@ =~= old(out)@ + escape_value(e));
}

impl Lexer {
    /// `quote` is `"` or `'`: the language only writes `"`, but a
    /// `script { }` body may hold Lua's `'...'` strings, and accepting both
    /// keeps the brace counting that finds a script body accurate.
    fn scan_quoted_string(&self, start: usize, quote: char) -> (r: Result<(TokenKind, usize), SyntaxError>)
        requires
            self.wf(),
            start < self.cs@.len(),
            self.cs@[start as int] == quote,
            quote == '"' || quote == '\'',
        ensures
            r matches Ok((k, end)) ==> start < end <= self.cs@.len() && lexeme_of(
                k,
                self.cs@.subrange(start as int, end as int),
            ),
            r matches Err(e) ==> e is UnterminatedString,
            scan_res_v(r) == sp_quoted(self.cs@, start as int, quote),
    {
        let n = self.cs.len();
        let ghost cs = self.cs@;
        let mut out = String::new();
        let mut i = start + 1;
        proof {
            assert forall|j: int| i <= j <= n implies #[trigger] unescape(
                cs.subrange(start + 1, j),
                quote,
            ) == prepend(out@, unescape(cs.subrange(i as int, j), quote)) by {
                match unescape(cs.subrange(i as int, j), quote) {
                    Some(r) => assert(out@ + r =~= r),
                    None => {},
                }
            }
        }
        loop
            invariant
                self.wf(),
                cs == self.cs@,
                n == cs.len(),
                start < i <= n,
                cs[start as int] == quote,
                quote == '"' || quote == '\'',
                forall|j: int| i <= j <= n ==> #[trigger] unescape(cs.subrange(start + 1, j), quote)
                    == prepend(out@, unescape(cs.subrange(i as int, j), quote)),
                quote_close(cs, i as int, quote) == quote_close(cs, start + 1, quote),
            decreases n - i,
        {
            if i == n {
                return Err(SyntaxError::UnterminatedString { span: self.span(start, i) });
            }
            let c = self.cs[i];
            if c == quote {
                let ghost lex = cs.subrange(start as int, i + 1);
                assert(lex.subrange(1, lex.len() - 1) =~= cs.subrange(start + 1, i as int));
                assert(unescape(cs.subrange(i as int, i as int), quote) == Some(Seq::<char>::empty()));
                assert(out@ + Seq::<char>::empty() =~= out@);
                assert(unescape(cs.subrange(start + 1, i as int), quote) == Some(out@));
                assert(lex[0] == quote);
                assert(lex.last() == quote);
                let k = TokenKind::QuotedString(out);
                assert(lex.len() >= 2);
                assert(unescape(lex.subrange(1, lex.len() - 1), lex[0]) == Some(out@));
                assert(lexeme_of(k, lex));
                return Ok((k, i + 1));
            }
            let ghost old_out = out@;
            let ghost old_i = i;
            if c == '\\' {
                if i + 1 == n {
                    return Err(SyntaxError::UnterminatedString { span: self.span(start, i + 1) });
                }
                let e = self.cs[i + 1];
                push_escape(&mut out, e);
                i += 2;
                proof {
                    assert forall|j: int| i <= j <= n implies #[trigger] unescape(
                        cs.subrange(start + 1, j),
                        quote,
                    ) == prepend(out@, unescape(cs.subrange(i as int, j), quote)) by {
                        let body = cs.subrange(old_i as int, j);
                        assert(body.skip(2) =~= cs.subrange(i as int, j));
                        assert(body[0] == c && body[1] == e);
                        lemma_prepend_assoc(old_out, escape_value(e), unescape(cs.subrange(i as int, j), quote));
                    }
                }
            } else {
                push_char(&mut out, c);
                i += 1;
                proof {
                    assert forall|j: int| i <= j <= n implies #[trigger] unescape(
                        cs.subrange(start + 1, j),
                        quote,
                    ) == prepend(out@, unescape(cs.subrange(i as int, j), quote)) by {
                        let body = cs.subrange(old_i as int, j);
                        assert(body.drop_first() =~= cs.subrange(i as int, j));
                        assert(body[0] == c);
                        lemma_prepend_assoc(old_out, seq![c], unescape(cs.subrange(i as int, j), quote));
                    }
                }
            }
        }
    }

    /// `#` starts a color literal (`#8EDDFF`) when a maximal run of hex
    /// digits right after it is exactly 6 or 8 long, and a comment
    /// otherwise.
    fn scan_hash(&self, start: usize) -> (r: (TokenKind, usize))
        requires
            self.wf(),
            start < self.cs@.len(),
            self.cs@[start as int] == '#',
        ensures
            start < r.1 <= self.cs@.len(),
            lexeme_of(r.0, self.cs@.subrange(start as int, r.1 as int)),
            (kind_view(r.0), r.1 as int) == sp_hash(self.cs@, start as int),
    {
        let n = self.cs.len();
        let mut run_end = start + 1;
        while run_end < n && is_ascii_hexdigit(self.cs[run_end])
            invariant
                start < run_end <= n == self.cs@.len(),
                forall|k: int| start < k < run_end ==> is_hex(self.cs@[k]),
                hex_run_end(self.cs@, run_end as int) == hex_run_end(self.cs@, start + 1),
            decreases n - run_end,
        {
            run_end += 1;
        }
        let hex_len = run_end - (start + 1);
        if hex_len == 6 || hex_len == 8 {
            let hex = string_of_range(self.cs.as_slice(), start + 1, run_end);
            assert(self.cs@.subrange(start as int, run_end as int) =~= seq!['#'] + hex@);
            assert forall|k: int| 0 <= k < hex@.len() implies is_hex(#[trigger] hex@[k]) by {
                assert(hex@[k] == self.cs@[start + 1 + k]);
            }
            return (TokenKind::ColorLit(hex), run_end);
        }
        let mut e = start + 1;
        while e < n && self.cs[e] != '\n'
            invariant
                start < e <= n == self.cs@.len(),
                forall|k: int| start < k < e ==> self.cs@[k] != '\n',
                line_end(self.cs@, e as int) == line_end(self.cs@, start + 1),
            decreases n - e,
        {
            e += 1;
        }
        let text = string_of_range(self.cs.as_slice(), start + 1, e);
        assert(self.cs@.subrange(start as int, e as int) =~= seq!['#'] + text@);
        assert(!text@.contains('\n')) by {
            if text@.contains('\n') {
                let k = choose|k: int| 0 <= k < text@.len() && text@[k] == '\n';
                assert(self.cs@[start + 1 + k] == '\n');
            }
        }
        (TokenKind::Comment(text, CommentStyle::Hash), e)
    }

    /// `--` starts a line comment or, when followed by `[[`, a block
    /// comment closed by `]]`.
    fn scan_dash_comment(&self, start: usize) -> (r: Result<(TokenKind, usize), SyntaxError>)
        requires
            self.wf(),
            start + 1 < self.cs@.len(),
            self.cs@[start as int] == '-',
            self.cs@[start + 1] == '-',
        ensures
            r matches Ok((k, end)) ==> start < end <= self.cs@.len() && lexeme_of(
                k,
                self.cs@.subrange(start as int, end as int),
            ),
            r matches Err(e) ==> e is UnterminatedComment,
            scan_res_v(r) == sp_dash(self.cs@, start as int),
    {
        let n = self.cs.len();
        let p = start + 2;
        if p < n && p + 1 < n && self.cs[p] == '[' && self.cs[p + 1] == '[' {
            let body_start = p + 2;
            let mut j = body_start;
            loop
                invariant
                    body_start <= j <= n == self.cs@.len(),
                    body_start == start + 4,
                    self.wf(),
                    self.cs@[start as int] == '-',
                    self.cs@[start + 1] == '-',
                    self.cs@[start + 2] == '[',
                    self.cs@[start + 3] == '[',
                    block_close(self.cs@, j as int) == block_close(self.cs@, body_start as int),
                decreases n - j,
            {
                if j == n {
                    return Err(SyntaxError::UnterminatedComment { span: self.span(start, n) });
                }
                if self.cs[j] == ']' && j + 1 < n && self.cs[j + 1] == ']' {
                    let text = string_of_range(self.cs.as_slice(), body_start, j);
                    assert(self.cs@.subrange(start as int, j + 2) =~= seq!['-', '-', '[', '[']
                        + text@ + seq![']', ']']);
                    return Ok((TokenKind::Comment(text, CommentStyle::Block), j + 2));
                }
                j += 1;
            }
        }
        let mut e = p;
        while e < n && self.cs[e] != '\n'
            invariant
                p <= e <= n == self.cs@.len(),
                forall|k: int| p <= k < e ==> self.cs@[k] != '\n',
                line_end(self.cs@, e as int) == line_end(self.cs@, p as int),
            decreases n - e,
        {
            e += 1;
        }
        let text = string_of_range(self.cs.as_slice(), p, e);
        assert(self.cs@.subrange(start as int, e as int) =~= seq!['-', '-'] + text@);
        assert(!text@.contains('\n')) by {
            if text@.contains('\n') {
                let k = choose|k: int| 0 <= k < text@.len() && text@[k] == '\n';
                assert(self.cs@[p + k] == '\n');
            }
        }
        Ok((TokenKind::Comment(text, CommentStyle::DashDash), e))
    }
}


impl Lexer {
    /// Where the run of word characters from `i` ends.
    fn run_end_from(&self, i: usize) -> (e: usize)
        requires
            self.wf(),
            i <= self.cs@.len(),
        ensures
            i <= e <= self.cs@.len(),
            e == run_end(self.cs@, i as int),
    {
        let n = self.cs.len();
        let mut j = i;
        while j < n
            invariant
                i <= j <= n == self.cs@.len(),
                run_end(self.cs@, i as int) == run_end(self.cs@, j as int),
            ensures
                i <= j <= n,
                run_end(self.cs@, i as int) == j,
            decreases n - j,
        {
            let c = self.cs[j];
            if !continues_word(c) || (c == '-' && j + 1 < n && self.cs[j + 1] == '-') {
                break;
            }
            j += 1;
        }
        j
    }

    fn scan_word_or_operator(&self, start: usize) -> (r: Result<(TokenKind, usize), SyntaxError>)
        requires
            self.wf(),
            start < self.cs@.len(),
            word_char(self.cs@[start as int]),
            !(self.cs@[start as int] == '-' && start + 1 < self.cs@.len() && self.cs@[start + 1]
                == '-'),
        ensures
            r matches Ok((k, end)) ==> start < end <= self.cs@.len() && lexeme_of(
                k,
                self.cs@.subrange(start as int, end as int),
            ) && !(k is Eof),
            r matches Err(e) ==> e is SqueezedOperator,
            scan_res_v(r) == sp_word(self.cs@, start as int),
    {
        let n = self.cs.len();
        // An operator that starts a token is never squeezed on its left: it
        // is the token.
        proof {
            reveal_strlit("+");
            reveal_strlit("-");
        }
        if let Some((len, k, _)) = self.match_operator(start) {
            return Ok((k, start + len));
        }
        let mut i = start + 1;
        while i < n
            invariant
                start < i <= n == self.cs@.len(),
                self.wf(),
                forall|k: int| start <= k < i ==> word_char(#[trigger] self.cs@[k]),
                op_at(self.cs@, start as int) is None,
                word_end(self.cs@, start as int, start + 1) == word_end(self.cs@, start as int, i as int),
            ensures
                start < i <= n == self.cs@.len(),
                forall|k: int| start <= k < i ==> word_char(#[trigger] self.cs@[k]),
                word_end(self.cs@, start as int, start + 1) == Ok::<int, ErrV>(i as int),
            decreases n - i,
        {
            let c = self.cs[i];
            if is_whitespace(c) || is_hard_delim(c) {
                break;
            }
            if c == '-' && i + 1 < n && self.cs[i + 1] == '-' {
                break;  // the start of a `--` comment ends the word
            }
            match self.match_operator(i) {
                Some((op_len, op_kind, error_on_squeeze)) => {
                    let after = i + op_len;
                    let squeezed_right = after < n && continues_word(self.cs[after]) && !(
                    self.cs[after] == '-' && after + 1 < n && self.cs[after + 1] == '-');
                    if squeezed_right {
                        if error_on_squeeze {
                            let span = self.span(i, after);
                            let end = self.run_end_from(after);
                            let original = string_of_range(self.cs.as_slice(), start, end);
                            let mut suggestion = string_of_range(self.cs.as_slice(), start, i);
                            push_char(&mut suggestion, ' ');
                            let op = op_kind.describe();
                            suggestion.append(op.as_str());
                            push_char(&mut suggestion, ' ');
                            let tail = string_of_range(self.cs.as_slice(), after, end);
                            suggestion.append(tail.as_str());
                            assert(suggestion@ =~= self.cs@.subrange(start as int, i as int) + seq![' ']
                                + crate::token::describe_text(op_kind) + seq![' '] + self.cs@.subrange(
                                after as int,
                                end as int,
                            ));
                            return Err(SyntaxError::SqueezedOperator { original, suggestion, span });
                        }
                        // `+` / `-`: absorbed into the bare word.
                        assert(op_kind is Plus || op_kind is Minus);
                        proof {
                            reveal_strlit("+");
                            reveal_strlit("-");
                        }
                        assert(fixed_text(op_kind) == Some(self.cs@.subrange(i as int, i + op_len)));
                        assert("+"@.len() == 1);
                        assert(self.cs@.subrange(i as int, i + op_len).len() == op_len);
                        assert(op_len == 1);
                        i = after;
                        continue;
                    }
                    break;  // the operator ends the word
                },
                None => {
                    i += 1;
                },
            }
        }
        let word = &self.cs.as_slice()[start..i];
        assert(word@ =~= self.cs@.subrange(start as int, i as int));
        let k = classify_word(word);
        proof {
            reveal_strlit("if");
            reveal_strlit("elseif");
            reveal_strlit("else");
            reveal_strlit("for");
            reveal_strlit("while");
            reveal_strlit("do");
            reveal_strlit("end");
            reveal_strlit("return");
            reveal_strlit("local");
            reveal_strlit("fn");
            reveal_strlit("script");
            reveal_strlit("include");
            reveal_strlit("and");
            reveal_strlit("or");
            reveal_strlit("not");
            reveal_strlit("true");
            reveal_strlit("false");
            reveal_strlit("nil");
        }
        Ok((k, i))
    }

    fn next_token(&self, start: usize) -> (r: Result<(TokenKind, usize), SyntaxError>)
        requires
            self.wf(),
            start < self.cs@.len(),
            !is_ws(self.cs@[start as int]),
        ensures
            r matches Ok((k, end)) ==> start < end <= self.cs@.len() && lexeme_of(
                k,
                self.cs@.subrange(start as int, end as int),
            ) && !(k is Eof),
            r matches Err(e) ==> lex_error(e),
            scan_res_v(r) == sp_next(self.cs@, start as int),
    {
        let n = self.cs.len();
        let c = self.cs[start];
        let ghost lex1 = self.cs@.subrange(start as int, start + 1);
        proof {
            reveal_strlit("(");
            reveal_strlit(")");
            reveal_strlit("[");
            reveal_strlit("]");
            reveal_strlit("{");
            reveal_strlit("}");
            reveal_strlit(",");
            reveal_strlit("@");
            reveal_strlit("=");
            reveal_strlit("==");
            assert(lex1 =~= seq![c]);
        }
        if c == '(' {
            assert(lex1 =~= "("@);
            return Ok((TokenKind::LParen, start + 1));
        }
        if c == ')' {
            assert(lex1 =~= ")"@);
            return Ok((TokenKind::RParen, start + 1));
        }
        if c == '[' {
            assert(lex1 =~= "["@);
            return Ok((TokenKind::LBracket, start + 1));
        }
        if c == ']' {
            assert(lex1 =~= "]"@);
            return Ok((TokenKind::RBracket, start + 1));
        }
        if c == '{' {
            assert(lex1 =~= "{"@);
            return Ok((TokenKind::LBrace, start + 1));
        }
        if c == '}' {
            assert(lex1 =~= "}"@);
            return Ok((TokenKind::RBrace, start + 1));
        }
        if c == ',' {
            assert(lex1 =~= ","@);
            return Ok((TokenKind::Comma, start + 1));
        }
        if c == '@' {
            assert(lex1 =~= "@"@);
            return Ok((TokenKind::At, start + 1));
        }
        if c == '"' || c == '\'' {
            return self.scan_quoted_string(start, c);
        }
        if c == '#' {
            return Ok(self.scan_hash(start));
        }
        if c == '=' {
            if start + 1 < n && self.cs[start + 1] == '=' {
                assert(self.cs@.subrange(start as int, start + 2) =~= "=="@);
                return Ok((TokenKind::EqEq, start + 2));
            }
            assert(lex1 =~= "="@);
            return Ok((TokenKind::Eq, start + 1));
        }
        if c == '-' && start + 1 < n && self.cs[start + 1] == '-' {
            return self.scan_dash_comment(start);
        }
        self.scan_word_or_operator(start)
    }

    fn run(&self) -> (r: Result<Vec<Token>, SyntaxError>)
        requires
            self.wf(),
        ensures
            r matches Ok(toks) ==> tokenized(self.cs@, toks@),
            r matches Err(e) ==> lex_error(e),
            toks_res_v(r) == sp_tokens(self.cs@),
    {
        let n = self.cs.len();
        let ghost text = self.cs@;
        let mut tokens: Vec<Token> = Vec::new();
        let ghost mut cr: Seq<(int, int)> = Seq::empty();
        let mut pos: usize = 0;
        proof {
            assert(toks_v(tokens@) =~= seq![]);
        }
        loop
            invariant
                self.wf(),
                text == self.cs@,
                n == text.len(),
                pos <= n,
                lexed_as(text, tokens@, cr),
                pos == prev_end(cr, cr.len() as int),
                forall|i: int| 0 <= i < tokens@.len() ==> !(#[trigger] tokens@[i].kind is Eof),
                sp_tokens(text) == sp_lex(text, pos as int, toks_v(tokens@)),
            decreases n - pos,
        {
            let start = self.skip_whitespace(pos);
            if start == n {
                let t = Token::new(TokenKind::Eof, self.span(n, n));
                let ghost old_toks = tokens@;
                let ghost old_cr = cr;
                proof {
                    assert(toks_v(tokens@.push(t)) =~= toks_v(tokens@).push((kind_view(t.kind), t.span)));
                }
                tokens.push(t);
                proof {
                    cr = cr.push((n as int, n as int));
                    assert forall|i: int| 0 <= i < tokens@.len() implies #[trigger] token_at(
                        text,
                        tokens@,
                        cr,
                        i,
                    ) by {
                        if i < old_toks.len() {
                            assert(token_at(text, old_toks, old_cr, i));
                            assert(prev_end(cr, i) == prev_end(old_cr, i));
                        } else {
                            assert(text.subrange(n as int, n as int).len() == 0);
                        }
                    }
                    assert(lexed_as(text, tokens@, cr));
                    assert forall|i: int| 0 <= i < tokens@.len() - 1 implies !(
                    #[trigger] tokens@[i].kind is Eof) by {
                        assert(tokens@[i] == old_toks[i]);
                    }
                }
                return Ok(tokens);
            }
            let (kind, end) = match self.next_token(start) {
                Ok(x) => x,
                Err(e) => return Err(e),
            };
            let t = Token::new(kind, self.span(start, end));
            let ghost old_toks = tokens@;
            let ghost old_cr = cr;
            proof {
                assert(toks_v(tokens@.push(t)) =~= toks_v(tokens@).push((kind_view(t.kind), t.span)));
            }
            tokens.push(t);
            proof {
                cr = cr.push((start as int, end as int));
                assert forall|i: int| 0 <= i < tokens@.len() implies #[trigger] token_at(
                    text,
                    tokens@,
                    cr,
                    i,
                ) by {
                    if i < old_toks.len() {
                        assert(token_at(text, old_toks, old_cr, i));
                        assert(prev_end(cr, i) == prev_end(old_cr, i));
                    }
                }
                assert forall|i: int| 0 <= i < tokens@.len() implies !(
                #[trigger] tokens@[i].kind is Eof) by {
                    if i < old_toks.len() {
                        assert(tokens@[i] == old_toks[i]);
                    }
                }
            }
            pos = end;
        }
    }
}

/// Splits source text into tokens, comments included, ending with `Eof`.
pub fn tokenize(source: &str) -> (r: Result<Vec<Token>, SyntaxError>)
    requires
        byte_len(source@) <= u32::MAX,
    ensures
        r matches Ok(toks) ==> tokenized(source@, toks@),
        r matches Err(e) ==> lex_error(e),
        toks_res_v(r) == sp_tokens(source@),
{
    Lexer::new(source).run()
}

} // verus!
