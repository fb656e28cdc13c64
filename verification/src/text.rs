//! Character-level helpers shared by the lexer, the parser and the
//! formatter: Unicode white space, ASCII classes, UTF-8 widths, and the
//! conversions between `&str`, `String` and `Vec<char>`.

use vstd::prelude::*;
use vstd::std_specs::iter::IteratorSpec;

verus! {

/// The Unicode `White_Space` property, which is what `char::is_whitespace`
/// tests.
pub open spec fn is_ws(c: char) -> bool {
    let u = c as u32;
    ||| 0x09 <= u <= 0x0D
    ||| u == 0x20
    ||| u == 0x85
    ||| u == 0xA0
    ||| u == 0x1680
    ||| 0x2000 <= u <= 0x200A
    ||| u == 0x2028
    ||| u == 0x2029
    ||| u == 0x202F
    ||| u == 0x205F
    ||| u == 0x3000
}

pub fn is_whitespace(c: char) -> (b: bool)
    ensures
        b == is_ws(c),
{
    let u = c as u32;
    (0x09 <= u && u <= 0x0D) || u == 0x20 || u == 0x85 || u == 0xA0 || u == 0x1680 || (0x2000
        <= u && u <= 0x200A) || u == 0x2028 || u == 0x2029 || u == 0x202F || u == 0x205F || u
        == 0x3000
}

pub open spec fn is_digit(c: char) -> bool {
    0x30 <= (c as u32) <= 0x39
}

pub fn is_ascii_digit(c: char) -> (b: bool)
    ensures
        b == is_digit(c),
{
    let u = c as u32;
    0x30 <= u && u <= 0x39
}

pub open spec fn is_hex(c: char) -> bool {
    let u = c as u32;
    ||| 0x30 <= u <= 0x39
    ||| 0x41 <= u <= 0x46
    ||| 0x61 <= u <= 0x66
}

pub fn is_ascii_hexdigit(c: char) -> (b: bool)
    ensures
        b == is_hex(c),
{
    let u = c as u32;
    (0x30 <= u && u <= 0x39) || (0x41 <= u && u <= 0x46) || (0x61 <= u && u <= 0x66)
}

/// The value of a hexadecimal digit.
pub open spec fn hex_value(c: char) -> int {
    let u = c as u32;
    if 0x30 <= u <= 0x39 {
        u - 0x30
    } else if 0x41 <= u <= 0x46 {
        u - 0x41 + 10
    } else {
        u - 0x61 + 10
    }
}

pub fn hex_digit_value(c: char) -> (v: u8)
    requires
        is_hex(c),
    ensures
        v as int == hex_value(c),
        v < 16,
{
    let u = c as u32;
    if 0x30 <= u && u <= 0x39 {
        (u - 0x30) as u8
    } else if 0x41 <= u && u <= 0x46 {
        (u - 0x41 + 10) as u8
    } else {
        (u - 0x61 + 10) as u8
    }
}

/// What `char::is_alphanumeric` answers for `c` (the Unicode `Alphabetic`
/// or `Numeric` properties).
pub uninterp spec fn is_alnum(c: char) -> bool;

/// Calls `char::is_alphanumeric`; its answer is named by [`is_alnum`].
#[verifier::external_body]
pub fn char_is_alphanumeric(c: char) -> (b: bool)
    ensures
        b == is_alnum(c),
{
    c.is_alphanumeric()
}

/// An identifier character for `$name` interpolation.
pub open spec fn is_ident_char(c: char) -> bool {
    is_alnum(c) || c == '_'
}

pub fn is_interp_char(c: char) -> (b: bool)
    ensures
        b == is_ident_char(c),
{
    c == '_' || char_is_alphanumeric(c)
}

/// The number of bytes that `c` takes in UTF-8.
pub open spec fn utf8_width(c: char) -> nat {
    let u = c as u32;
    if u <= 0x7F {
        1
    } else if u <= 0x7FF {
        2
    } else if u <= 0xFFFF {
        3
    } else {
        4
    }
}

pub fn len_utf8(c: char) -> (n: u32)
    ensures
        n == utf8_width(c),
{
    let u = c as u32;
    if u <= 0x7F {
        1
    } else if u <= 0x7FF {
        2
    } else if u <= 0xFFFF {
        3
    } else {
        4
    }
}

/// The number of bytes that `s` takes in UTF-8.
pub open spec fn byte_len(s: Seq<char>) -> nat
    decreases s.len(),
{
    if s.len() == 0 {
        0
    } else {
        byte_len(s.drop_last()) + utf8_width(s.last())
    }
}

pub proof fn lemma_byte_len_take_step(s: Seq<char>, i: int)
    requires
        0 <= i < s.len(),
    ensures
        byte_len(s.take(i + 1)) == byte_len(s.take(i)) + utf8_width(s[i]),
{
    assert(s.take(i + 1).drop_last() =~= s.take(i));
}

pub proof fn lemma_byte_len_mono(s: Seq<char>, i: int, j: int)
    requires
        0 <= i <= j <= s.len(),
    ensures
        byte_len(s.take(i)) + (j - i) <= byte_len(s.take(j)),
    decreases j - i,
{
    if i < j {
        lemma_byte_len_mono(s, i, j - 1);
        lemma_byte_len_take_step(s, j - 1);
    }
}

/// Appends one character to a `String` (`String::push`).
#[verifier::external_body]
pub fn push_char(s: &mut String, c: char)
    ensures
        final(s)@ == old(s)@.push(c),
{
    s.push(c);
}

/// The characters of `s`, in order.
pub fn chars_of(s: &str) -> (v: Vec<char>)
    ensures
        v@ == s@,
{
    broadcast use {vstd::string::axiom_spec_iter, vstd::string::next_postcondition};

    let mut it = s.chars();
    let mut v: Vec<char> = Vec::new();
    loop
        invariant
            v@ + it.remaining() == s@,
            it.decrease() is Some,
        ensures
            v@ == s@,
        decreases it.decrease()->0,
    {
        let ghost before = it.remaining();
        match it.next() {
            Some(c) => {
                assert(before.len() > 0 && c == before[0]);
                v.push(c);
                assert(v@ + it.remaining() =~= s@);
            },
            None => {
                assert(v@ =~= s@);
                break;
            },
        }
    }
    v
}

/// Builds a `String` from characters.
pub fn string_of(cs: &[char]) -> (s: String)
    ensures
        s@ == cs@,
{
    let mut s = String::new();
    let mut i: usize = 0;
    while i < cs.len()
        invariant
            i <= cs.len(),
            s@ == cs@.take(i as int),
        decreases cs.len() - i,
    {
        push_char(&mut s, cs[i]);
        assert(cs@.take(i as int).push(cs@[i as int]) =~= cs@.take(i + 1));
        i += 1;
    }
    assert(cs@.take(cs.len() as int) =~= cs@);
    s
}

/// Builds a `String` from `cs[from..to]`.
pub fn string_of_range(cs: &[char], from: usize, to: usize) -> (s: String)
    requires
        from <= to <= cs.len(),
    ensures
        s@ == cs@.subrange(from as int, to as int),
{
    let mut s = String::new();
    let mut i: usize = from;
    while i < to
        invariant
            from <= i <= to <= cs.len(),
            s@ == cs@.subrange(from as int, i as int),
        decreases to - i,
    {
        push_char(&mut s, cs[i]);
        assert(cs@.subrange(from as int, i as int).push(cs@[i as int]) =~= cs@.subrange(
            from as int,
            i + 1,
        ));
        i += 1;
    }
    s
}

/// Appends `s` to `out`.
pub fn push_str(out: &mut String, s: &str)
    ensures
        final(out)@ == old(out)@ + s@,
{
    out.append(s);
}

/// Appends characters to `out`.
pub fn push_chars(out: &mut String, cs: &[char])
    ensures
        final(out)@ == old(out)@ + cs@,
{
    let ghost start = out@;
    let mut i: usize = 0;
    while i < cs.len()
        invariant
            i <= cs.len(),
            out@ == start + cs@.take(i as int),
        decreases cs.len() - i,
    {
        push_char(out, cs[i]);
        assert(start + cs@.take(i as int) + seq![cs@[i as int]] =~= start + cs@.take(i + 1));
        i += 1;
    }
    assert(cs@.take(cs.len() as int) =~= cs@);
}

/// Do two character sequences hold the same characters?
pub fn chars_eq(a: &[char], b: &[char]) -> (r: bool)
    ensures
        r == (a@ == b@),
{
    if a.len() != b.len() {
        return false;
    }
    let mut i: usize = 0;
    while i < a.len()
        invariant
            a.len() == b.len(),
            i <= a.len(),
            forall|k: int| 0 <= k < i ==> a@[k] == b@[k],
        decreases a.len() - i,
    {
        if a[i] != b[i] {
            return false;
        }
        i += 1;
    }
    assert(a@ =~= b@);
    true
}

/// Does `s` hold the characters of `lit`?
pub fn is_text(s: &[char], lit: &str) -> (r: bool)
    ensures
        r == (s@ == lit@),
{
    let l = chars_of(lit);
    chars_eq(s, l.as_slice())
}

/// Does `s` contain `c`?
pub fn contains_char(s: &[char], c: char) -> (r: bool)
    ensures
        r == s@.contains(c),
{
    let mut i: usize = 0;
    while i < s.len()
        invariant
            i <= s.len(),
            forall|k: int| 0 <= k < i ==> s@[k] != c,
        decreases s.len() - i,
    {
        if s[i] == c {
            assert(s@[i as int] == c);
            return true;
        }
        i += 1;
    }
    false
}


/// The UTF-8 length of a concatenation is the sum of the lengths.
pub proof fn lemma_byte_len_concat(a: Seq<char>, b: Seq<char>)
    ensures
        byte_len(a + b) == byte_len(a) + byte_len(b),
    decreases b.len(),
{
    if b.len() == 0 {
        assert(a + b =~= a);
    } else {
        lemma_byte_len_concat(a, b.drop_last());
        assert((a + b).drop_last() =~= a + b.drop_last());
    }
}

/// The bytes of `s[..j]` are those of `s[..i]` followed by those of
/// `s[i..j]`.
pub proof fn lemma_byte_len_split(s: Seq<char>, i: int, j: int)
    requires
        0 <= i <= j <= s.len(),
    ensures
        byte_len(s.take(j)) == byte_len(s.take(i)) + byte_len(s.subrange(i, j)),
{
    lemma_byte_len_concat(s.take(i), s.subrange(i, j));
    assert(s.take(i) + s.subrange(i, j) =~= s.take(j));
}


/// Strictly increasing byte offsets of each character of `cs`, and of its
/// end.
pub open spec fn offsets_of(cs: Seq<char>, offs: Seq<u32>) -> bool {
    &&& offs.len() == cs.len() + 1
    &&& forall|i: int| 0 <= i <= cs.len() ==> #[trigger] offs[i] == byte_len(cs.take(i))
}

/// Byte offsets of later characters are larger.
pub proof fn lemma_offsets_injective(cs: Seq<char>, offs: Seq<u32>)
    requires
        offsets_of(cs, offs),
    ensures
        forall|i: int, j: int| 0 <= i < j <= cs.len() ==> #[trigger] offs[i] < #[trigger] offs[j],
{
    assert forall|i: int, j: int| 0 <= i < j <= cs.len() implies #[trigger] offs[i] < #[trigger] offs[j] by {
        lemma_byte_len_mono(cs, i, j);
    }
}

/// The byte offset at which each character of `cs` starts, followed by the
/// length of `cs` in bytes.
pub fn byte_offsets(cs: &[char]) -> (offs: Vec<u32>)
    requires
        byte_len(cs@) <= u32::MAX,
    ensures
        offsets_of(cs@, offs@),
{
    let n = cs.len();
    let mut offs: Vec<u32> = Vec::new();
    offs.push(0);
    assert(cs@.take(0) =~= Seq::<char>::empty());
    let mut acc: u32 = 0;
    let mut i: usize = 0;
    while i < n
        invariant
            i <= n == cs@.len(),
            byte_len(cs@) <= u32::MAX,
            offs@.len() == i + 1,
            acc == byte_len(cs@.take(i as int)),
            forall|k: int| 0 <= k <= i ==> #[trigger] offs@[k] == byte_len(cs@.take(k)),
        decreases n - i,
    {
        proof {
            lemma_byte_len_take_step(cs@, i as int);
            lemma_byte_len_mono(cs@, i + 1, n as int);
            assert(cs@.take(n as int) =~= cs@);
        }
        acc = acc + len_utf8(cs[i]);
        offs.push(acc);
        i += 1;
    }
    offs
}

/// The index of the character that starts at byte offset `b`, if any.
pub fn char_index_of_byte(cs: &[char], offs: &[u32], b: u32) -> (r: Option<usize>)
    requires
        offsets_of(cs@, offs@),
    ensures
        r matches Some(i) ==> i <= cs@.len() && offs@[i as int] == b,
        r is None ==> forall|i: int| 0 <= i <= cs@.len() ==> offs@[i] != b,
{
    let n = cs.len();
    let mut lo: usize = 0;
    let mut hi: usize = n;
    proof {
        assert forall|i: int, j: int| 0 <= i < j <= n implies offs@[i] < offs@[j] by {
            lemma_byte_len_mono(cs@, i, j);
        }
    }
    if b < offs[0] || b > offs[n] {
        return None;
    }
    while lo < hi
        invariant
            offsets_of(cs@, offs@),
            n == cs@.len(),
            lo <= hi <= n,
            forall|i: int, j: int| 0 <= i < j <= n ==> offs@[i] < offs@[j],
            offs@[lo as int] <= b <= offs@[hi as int],
        decreases hi - lo,
    {
        let mid = lo + (hi - lo) / 2;
        if offs[mid] == b {
            return Some(mid);
        }
        if offs[mid] < b {
            if mid + 1 <= hi && offs[mid + 1] > b {
                return None;
            }
            lo = mid + 1;
        } else {
            hi = mid;
        }
    }
    if offs[lo] == b {
        Some(lo)
    } else {
        None
    }
}

} // verus!
