//! Typed runtime values: the result of evaluating a literal or an
//! expression. `ast::Expr` is the syntax; `Value` is what evaluation yields,
//! what schema validation checks, and what host applications inspect.
//!
//! A float is held as its decimal text, exactly as `{}` prints the `f64`
//! (`1.5`, `2`, `0.25`): the library never does float arithmetic, it only
//! carries, compares and prints floats, and the text is a faithful stand-in
//! for all three.

use vstd::prelude::*;
use crate::number::{decimal_display, int_text, push_decimal, push_i64};
use crate::text::{chars_of, hex_digit_value, hex_value, is_hex, is_text, push_char, push_str};

verus! {

#[derive(Debug, Clone, Copy, PartialEq, Eq, Structural)]
pub enum DurationUnit {
    Millis,
    Seconds,
    Minutes,
}

/// The suffix that writes a unit.
pub open spec fn unit_suffix(u: DurationUnit) -> Seq<char> {
    match u {
        DurationUnit::Millis => "ms"@,
        DurationUnit::Seconds => "s"@,
        DurationUnit::Minutes => "m"@,
    }
}

/// The unit that a suffix writes, if any.
pub open spec fn unit_of_suffix(s: Seq<char>) -> Option<DurationUnit> {
    if s == "ms"@ {
        Some(DurationUnit::Millis)
    } else if s == "s"@ {
        Some(DurationUnit::Seconds)
    } else if s == "m"@ {
        Some(DurationUnit::Minutes)
    } else {
        None
    }
}

impl DurationUnit {
    pub fn suffix(self) -> (s: &'static str)
        ensures
            s@ == unit_suffix(self),
    {
        match self {
            DurationUnit::Millis => "ms",
            DurationUnit::Seconds => "s",
            DurationUnit::Minutes => "m",
        }
    }

    pub fn parse(s: &str) -> (u: Option<Self>)
        ensures
            u == unit_of_suffix(s@),
    {
        let cs = chars_of(s);
        if is_text(cs.as_slice(), "ms") {
            Some(DurationUnit::Millis)
        } else if is_text(cs.as_slice(), "s") {
            Some(DurationUnit::Seconds)
        } else if is_text(cs.as_slice(), "m") {
            Some(DurationUnit::Minutes)
        } else {
            None
        }
    }
}

/// Reading back the suffix of a unit gives the unit.
pub proof fn lemma_unit_suffix_round_trip(u: DurationUnit)
    ensures
        unit_of_suffix(unit_suffix(u)) == Some(u),
{
    reveal_strlit("ms");
    reveal_strlit("s");
    reveal_strlit("m");
    assert("ms"@.len() == 2);
    assert("s"@ != "ms"@);
    assert("m"@ != "ms"@);
    assert("m"@[0] != "s"@[0]);
    assert("m"@ != "s"@);
}

/// A duration literal such as `600ms`, `1.5s`, `2m`. The unit is part of
/// the type: a bare number is never taken for a duration. `amount` is the
/// amount as it prints (`1.5`, `600`).
#[derive(Debug, Clone, PartialEq)]
pub struct DurationValue {
    pub amount: String,
    pub unit: DurationUnit,
}

impl DurationValue {
    pub fn new(amount: &str, unit: DurationUnit) -> (d: Self)
        ensures
            d.amount@ == amount@,
            d.unit == unit,
    {
        DurationValue { amount: amount.to_owned(), unit }
    }

    /// The duration that the literal `amount` + `unit` denotes (the parts
    /// of a `DurationLit` token), with the amount written as it prints.
    pub fn from_literal(amount: &str, unit: &str) -> (d: Option<Self>)
        ensures
            d is Some <==> unit_of_suffix(unit@) is Some,
            d matches Some(v) ==> v.amount@ == decimal_display(amount@) && Some(v.unit)
                == unit_of_suffix(unit@),
    {
        match DurationUnit::parse(unit) {
            Some(u) => {
                let cs = chars_of(amount);
                let mut text = String::new();
                push_decimal(&mut text, cs.as_slice(), false);
                assert(text@ =~= decimal_display(amount@));
                Some(DurationValue { amount: text, unit: u })
            },
            None => None,
        }
    }

    /// The duration as it prints: the amount followed by the unit suffix.
    pub fn to_text(&self) -> (s: String)
        ensures
            s@ == self.amount@ + unit_suffix(self.unit),
    {
        let mut s = self.amount.clone();
        push_str(&mut s, self.unit.suffix());
        s
    }
}

/// A color literal such as `#8EDDFF` or `#101820CC`, held as RGBA channels.
#[derive(Debug, Clone, Copy, PartialEq, Eq, Structural)]
pub struct ColorValue {
    pub r: u8,
    pub g: u8,
    pub b: u8,
    pub a: u8,
}

/// The uppercase hexadecimal digit for `d` in `0..16`.
pub open spec fn hex_char(d: int) -> char {
    if d < 10 {
        (0x30 + d) as char
    } else {
        (0x41 + d - 10) as char
    }
}

/// A byte as two uppercase hexadecimal digits (`{:02X}`).
pub open spec fn byte_hex(b: u8) -> Seq<char> {
    seq![hex_char(b as int / 16), hex_char(b as int % 16)]
}

/// What [`ColorValue::to_hex`] returns.
pub open spec fn color_hex(c: ColorValue, include_alpha: bool) -> Seq<char> {
    let rgb = byte_hex(c.r) + byte_hex(c.g) + byte_hex(c.b);
    if include_alpha {
        rgb + byte_hex(c.a)
    } else {
        rgb
    }
}

/// The channel that a pair of hexadecimal digits (either letter case)
/// spells, high digit first; nothing for any other pair.
pub open spec fn hex_pair(p0: char, p1: char) -> Option<u8> {
    if is_hex(p0) && is_hex(p1) {
        Some((hex_value(p0) * 16 + hex_value(p1)) as u8)
    } else {
        None
    }
}

pub open spec fn all_ascii(s: Seq<char>) -> bool {
    forall|i: int| 0 <= i < s.len() ==> (#[trigger] s[i] as u32) < 0x80
}

/// What [`ColorValue::parse_hex`] returns for `s`: the channels of an
/// `RRGGBB` or `RRGGBBAA` text of hexadecimal digits, two digits per
/// channel, the alpha channel opaque when it is not given.
pub open spec fn parse_hex_spec(s: Seq<char>) -> Option<ColorValue> {
    if !all_ascii(s) || (s.len() != 6 && s.len() != 8) {
        None
    } else {
        let r = hex_pair(s[0], s[1]);
        let g = hex_pair(s[2], s[3]);
        let b = hex_pair(s[4], s[5]);
        let a = if s.len() == 8 { hex_pair(s[6], s[7]) } else { Some(255u8) };
        if r is Some && g is Some && b is Some && a is Some {
            Some(ColorValue { r: r->0, g: g->0, b: b->0, a: a->0 })
        } else {
            None
        }
    }
}

fn parse_pair(p0: char, p1: char) -> (r: Option<u8>)
    ensures
        r == hex_pair(p0, p1),
{
    if is_ascii_hex(p0) && is_ascii_hex(p1) {
        let hi = hex_digit_value(p0);
        let lo = hex_digit_value(p1);
        Some(hi * 16 + lo)
    } else {
        None
    }
}

fn is_ascii_hex(c: char) -> (b: bool)
    ensures
        b == is_hex(c),
{
    crate::text::is_ascii_hexdigit(c)
}

fn hex_digit(d: u8) -> (c: char)
    requires
        d < 16,
    ensures
        c == hex_char(d as int),
{
    let c = match d {
        0 => '0',
        1 => '1',
        2 => '2',
        3 => '3',
        4 => '4',
        5 => '5',
        6 => '6',
        7 => '7',
        8 => '8',
        9 => '9',
        10 => 'A',
        11 => 'B',
        12 => 'C',
        13 => 'D',
        14 => 'E',
        _ => 'F',
    };
    proof {
        if d < 10 {
            vstd::utf8::char_u32_cast(c, (0x30 + d) as u32);
        } else {
            vstd::utf8::char_u32_cast(c, (0x41 + d - 10) as u32);
        }
    }
    c
}

fn push_byte_hex(out: &mut String, b: u8)
    ensures
        final(out)@ == old(out)@ + byte_hex(b),
{
    push_char(out, hex_digit(b / 16));
    push_char(out, hex_digit(b % 16));
    assert(out@ =~= old(out)@ + byte_hex(b));
}

impl ColorValue {
    pub fn rgb(r: u8, g: u8, b: u8) -> (c: Self)
        ensures
            c == (ColorValue { r, g, b, a: 255 }),
    {
        ColorValue { r, g, b, a: 255 }
    }

    pub fn rgba(r: u8, g: u8, b: u8, a: u8) -> (c: Self)
        ensures
            c == (ColorValue { r, g, b, a }),
    {
        ColorValue { r, g, b, a }
    }

    /// Parses a `RRGGBB` or `RRGGBBAA` hex string (no leading `#`).
    pub fn parse_hex(hex: &str) -> (c: Option<Self>)
        ensures
            c == parse_hex_spec(hex@),
    {
        let s = chars_of(hex);
        let n = s.len();
        let mut i: usize = 0;
        while i < n
            invariant
                i <= n == s@.len(),
                s@ == hex@,
                forall|k: int| 0 <= k < i ==> (#[trigger] s@[k] as u32) < 0x80,
            decreases n - i,
        {
            if s[i] as u32 >= 0x80 {
                return None;
            }
            i += 1;
        }
        if n != 6 && n != 8 {
            return None;
        }
        let r = parse_pair(s[0], s[1]);
        let g = parse_pair(s[2], s[3]);
        let b = parse_pair(s[4], s[5]);
        let a = if n == 8 { parse_pair(s[6], s[7]) } else { Some(255u8) };
        match (r, g, b, a) {
            (Some(r), Some(g), Some(b), Some(a)) => Some(ColorValue { r, g, b, a }),
            _ => None,
        }
    }

    /// The channels as uppercase hex (`RRGGBB`, or `RRGGBBAA` with alpha).
    pub fn to_hex(self, include_alpha: bool) -> (s: String)
        ensures
            s@ == color_hex(self, include_alpha),
    {
        let mut s = String::new();
        push_byte_hex(&mut s, self.r);
        push_byte_hex(&mut s, self.g);
        push_byte_hex(&mut s, self.b);
        if include_alpha {
            push_byte_hex(&mut s, self.a);
        }
        assert(s@ =~= color_hex(self, include_alpha));
        s
    }

    /// The color as it prints: `#RRGGBB`, with the alpha channel only when
    /// it is not opaque.
    pub fn to_text(self) -> (s: String)
        ensures
            s@ == seq!['#'] + color_hex(self, self.a != 255),
    {
        let mut s = String::new();
        push_char(&mut s, '#');
        let h = self.to_hex(self.a != 255);
        s.append(h.as_str());
        s
    }
}

proof fn lemma_hex_char_value(d: int)
    requires
        0 <= d < 16,
    ensures
        is_hex(hex_char(d)),
        hex_value(hex_char(d)) == d,
        (hex_char(d) as u32) < 0x80,
{
    if d < 10 {
        vstd::utf8::char_u32_cast(hex_char(d), (0x30 + d) as u32);
    } else {
        vstd::utf8::char_u32_cast(hex_char(d), (0x41 + d - 10) as u32);
    }
}

/// The hex text of a colour is 6 digits, or 8 with the alpha channel.
pub(crate) proof fn lemma_color_hex_digits(c: ColorValue, include_alpha: bool)
    ensures
        color_hex(c, include_alpha).len() == (if include_alpha { 8int } else { 6int }),
        forall|j: int|
            0 <= j < color_hex(c, include_alpha).len() ==> is_hex(#[trigger] color_hex(c, include_alpha)[j]),
{
    lemma_hex_char_value(c.r as int / 16);
    lemma_hex_char_value(c.r as int % 16);
    lemma_hex_char_value(c.g as int / 16);
    lemma_hex_char_value(c.g as int % 16);
    lemma_hex_char_value(c.b as int / 16);
    lemma_hex_char_value(c.b as int % 16);
    lemma_hex_char_value(c.a as int / 16);
    lemma_hex_char_value(c.a as int % 16);
}

/// Reading back the hex text of a color gives the color: with the alpha
/// channel always, and without it for an opaque color.
pub proof fn lemma_color_hex_round_trip(c: ColorValue)
    ensures
        parse_hex_spec(color_hex(c, true)) == Some(c),
        c.a == 255 ==> parse_hex_spec(color_hex(c, false)) == Some(c),
{
    lemma_hex_char_value(c.r as int / 16);
    lemma_hex_char_value(c.r as int % 16);
    lemma_hex_char_value(c.g as int / 16);
    lemma_hex_char_value(c.g as int % 16);
    lemma_hex_char_value(c.b as int / 16);
    lemma_hex_char_value(c.b as int % 16);
    lemma_hex_char_value(c.a as int / 16);
    lemma_hex_char_value(c.a as int % 16);
    let t = color_hex(c, true);
    let f = color_hex(c, false);
    assert(t.len() == 8);
    assert(f.len() == 6);
    assert(all_ascii(t));
    assert(all_ascii(f));
}

/// An evaluated value: what schema validation checks and what host
/// applications receive back from evaluation.
#[derive(Debug, PartialEq)]
pub enum Value {
    Int(i64),
    /// A float, as `{}` prints it.
    Float(String),
    Bool(bool),
    Nil,
    Str(String),
    Color(ColorValue),
    Duration(DurationValue),
    List(Vec<Value>),
}

/// Lua-style truthiness: everything is truthy except `nil` and `false`.
pub open spec fn truthy(v: Value) -> bool {
    !(v is Nil || v == Value::Bool(false))
}

pub open spec fn kind_name_of(v: Value) -> Seq<char> {
    match v {
        Value::Int(_) => "integer"@,
        Value::Float(_) => "float"@,
        Value::Bool(_) => "boolean"@,
        Value::Nil => "nil"@,
        Value::Str(_) => "string"@,
        Value::Color(_) => "color"@,
        Value::Duration(_) => "duration"@,
        Value::List(_) => "list"@,
    }
}

/// How a value prints.
pub open spec fn value_text(v: Value) -> Seq<char>
    decreases v, 1int,
{
    match v {
        Value::Int(i) => int_text(i as int),
        Value::Float(s) => s@,
        Value::Bool(b) => if b { "true"@ } else { "false"@ },
        Value::Nil => "nil"@,
        Value::Str(s) => s@,
        Value::Color(c) => seq!['#'] + color_hex(c, c.a != 255),
        Value::Duration(d) => d.amount@ + unit_suffix(d.unit),
        Value::List(items) => seq!['['] + items_text(items@, items@.len() as int) + seq![']'],
    }
}

/// The first `n` items of a list, printed and separated by `, `.
pub open spec fn items_text(items: Seq<Value>, n: int) -> Seq<char>
    decreases items, 0int, n,
{
    if n <= 0 || n > items.len() {
        seq![]
    } else if n == 1 {
        value_text(items[0])
    } else {
        items_text(items, n - 1) + seq![',', ' '] + value_text(items[n - 1])
    }
}

/// Printing a value agrees with printing what it holds: a duration prints
/// as its amount followed by its unit's suffix (what
/// [`DurationValue::to_text`] prints), a colour as `#` and its hex text
/// (what [`ColorValue::to_text`] prints), an integer in decimal, and a
/// string or float as its text.
pub proof fn lemma_value_prints_as_its_parts(v: Value)
    ensures
        v matches Value::Duration(d) ==> value_text(v) == d.amount@ + unit_suffix(d.unit),
        v matches Value::Duration(d) ==> unit_of_suffix(
            value_text(v).subrange(d.amount@.len() as int, value_text(v).len() as int),
        ) == Some(d.unit),
        v matches Value::Color(c) ==> value_text(v) == seq!['#'] + color_hex(c, c.a != 255),
        v matches Value::Int(i) ==> value_text(v) == int_text(i as int),
        v matches Value::Str(t) ==> value_text(v) == t@,
        v matches Value::Float(t) ==> value_text(v) == t@,
{
    if let Value::Duration(d) = v {
        lemma_unit_suffix_round_trip(d.unit);
        assert(value_text(v).subrange(d.amount@.len() as int, value_text(v).len() as int)
            =~= unit_suffix(d.unit));
    }
}

/// As in Lua, only `nil` and `false` are falsy: zero, the empty string and
/// the empty list are truthy.
pub proof fn lemma_only_nil_and_false_are_falsy(v: Value)
    ensures
        !truthy(v) <==> (v is Nil || v == Value::Bool(false)),
{
}

/// Two values hold the same data: equal scalars, or lists of the same
/// length whose items hold the same data.
pub open spec fn same_value(a: Value, b: Value) -> bool
    decreases a, 1int,
{
    match a {
        Value::List(x) => match b {
            Value::List(y) => x@.len() == y@.len() && same_items(x@, y@, x@.len() as int),
            _ => false,
        },
        _ => a == b,
    }
}

/// The first `n` items of `x` and `y` hold the same data, pairwise.
pub open spec fn same_items(x: Seq<Value>, y: Seq<Value>, n: int) -> bool
    decreases x, 0int, n,
{
    if n <= 0 || n > x.len() {
        true
    } else {
        same_items(x, y, n - 1) && same_value(x[n - 1], y[n - 1])
    }
}

/// Items that hold the same data one by one make lists that do.
pub proof fn lemma_same_items_intro(x: Seq<Value>, y: Seq<Value>, n: int)
    requires
        0 <= n <= x.len(),
        forall|k: int| 0 <= k < n ==> #[trigger] same_value(x[k], y[k]),
    ensures
        same_items(x, y, n),
    decreases n,
{
    if n > 0 {
        lemma_same_items_intro(x, y, n - 1);
        assert(same_value(x[n - 1], y[n - 1]));
    }
}

/// Values that hold the same data print the same.
pub proof fn lemma_same_value_text(a: Value, b: Value)
    requires
        same_value(a, b),
    ensures
        value_text(a) == value_text(b),
    decreases a, 1int,
{
    match a {
        Value::List(x) => {
            let y = b->List_0;
            lemma_same_items_text(x@, y@, x@.len() as int);
        },
        _ => {},
    }
}

proof fn lemma_same_items_text(x: Seq<Value>, y: Seq<Value>, n: int)
    requires
        x.len() == y.len(),
        same_items(x, y, n),
    ensures
        items_text(x, n) == items_text(y, n),
    decreases x, 0int, n,
{
    if 0 < n <= x.len() {
        lemma_same_items_text(x, y, n - 1);
        lemma_same_value_text(x[n - 1], y[n - 1]);
    }
}

impl Clone for Value {
    fn clone(&self) -> (v: Self)
        ensures
            same_value(*self, v),
        decreases self,
    {
        match self {
            Value::Int(i) => Value::Int(*i),
            Value::Float(f) => Value::Float(f.clone()),
            Value::Bool(b) => Value::Bool(*b),
            Value::Nil => Value::Nil,
            Value::Str(s) => Value::Str(s.clone()),
            Value::Color(c) => Value::Color(*c),
            Value::Duration(d) => Value::Duration(DurationValue {
                amount: d.amount.clone(),
                unit: d.unit,
            }),
            Value::List(items) => {
                let mut out: Vec<Value> = Vec::new();
                let mut i: usize = 0;
                while i < items.len()
                    invariant
                        *self == Value::List(*items),
                        i <= items@.len(),
                        out@.len() == i,
                        forall|k: int| 0 <= k < i ==> same_value(#[trigger] items@[k], out@[k]),
                    decreases items@.len() - i,
                {
                    proof {
                        assert(decreases_to!(*self => (*self)->List_0));
                        assert((*self)->List_0 == *items);
                        assert(decreases_to!(items => items[i as int]));
                        assert(decreases_to!(*self => items[i as int]));
                    }
                    out.push(items[i].clone());
                    i += 1;
                }
                proof {
                    lemma_same_items_intro(items@, out@, i as int);
                }
                Value::List(out)
            },
        }
    }
}

impl Value {
    /// Lua-style truthiness: everything is truthy except `nil` and `false`.
    pub fn is_truthy(&self) -> (b: bool)
        ensures
            b == truthy(*self),
    {
        match self {
            Value::Nil => false,
            Value::Bool(b) => *b,
            _ => true,
        }
    }

    pub fn kind_name(&self) -> (s: &'static str)
        ensures
            s@ == kind_name_of(*self),
    {
        match self {
            Value::Int(_) => "integer",
            Value::Float(_) => "float",
            Value::Bool(_) => "boolean",
            Value::Nil => "nil",
            Value::Str(_) => "string",
            Value::Color(_) => "color",
            Value::Duration(_) => "duration",
            Value::List(_) => "list",
        }
    }

    /// How the value prints (what `{}` shows).
    pub fn to_text(&self) -> (s: String)
        ensures
            s@ == value_text(*self),
            *self matches Value::Duration(d) ==> s@ == d.amount@ + unit_suffix(d.unit),
            *self matches Value::Color(c) ==> s@ == seq!['#'] + color_hex(c, c.a != 255),
            *self matches Value::Int(i) ==> s@ == int_text(i as int),
            *self matches Value::Str(t) ==> s@ == t@,
            *self matches Value::Float(t) ==> s@ == t@,
            *self matches Value::Bool(b) ==> s@ == (if b { "true"@ } else { "false"@ }),
            *self is Nil ==> s@ == "nil"@,
        decreases self,
    {
        match self {
            Value::Int(i) => {
                let mut s = String::new();
                push_i64(&mut s, *i);
                assert(s@ =~= int_text(*i as int));
                s
            },
            Value::Float(f) => f.clone(),
            Value::Bool(b) => {
                if *b {
                    "true".to_owned()
                } else {
                    "false".to_owned()
                }
            },
            Value::Nil => "nil".to_owned(),
            Value::Str(s) => s.clone(),
            Value::Color(c) => c.to_text(),
            Value::Duration(d) => d.to_text(),
            Value::List(items) => {
                let mut s = String::new();
                push_char(&mut s, '[');
                let mut i: usize = 0;
                while i < items.len()
                    invariant
                        *self == Value::List(*items),
                        i <= items@.len(),
                        s@ == seq!['['] + items_text(items@, i as int),
                    decreases items@.len() - i,
                {
                    if i > 0 {
                        push_char(&mut s, ',');
                        push_char(&mut s, ' ');
                    }
                    proof {
                        assert(decreases_to!(*self => (*self)->List_0));
                        assert((*self)->List_0 == *items);
                        assert(decreases_to!(items => items[i as int]));
                        assert(decreases_to!(*self => items[i as int]));
                    }
                    let t = items[i].to_text();
                    s.append(t.as_str());
                    assert(s@ =~= seq!['['] + items_text(items@, i + 1));
                    i += 1;
                }
                push_char(&mut s, ']');
                s
            },
        }
    }
}

} // verus!
