//! Character classes and byte-offset arithmetic.
//!
//! The parser works on a `Vec<char>` view of the input line, but spans and
//! error positions are byte offsets into the original UTF-8 text. This
//! module defines the byte-offset function over `vstd`'s UTF-8 model and
//! wraps the character classifiers the grammar depends on.

use vstd::prelude::*;

verus! {

use vstd::utf8::encode_scalar;
use vstd::utf8::encode_utf8;
use vstd::utf8::is_scalar;
use vstd::utf8::char_is_scalar;

broadcast use vstd::utf8::char_is_scalar;

/// The Unicode `White_Space` code points: U+0009..U+000D, U+0020, U+0085,
/// U+00A0, U+1680, U+2000..U+200A, U+2028, U+2029, U+202F, U+205F, U+3000.
pub open spec fn is_space_char(c: char) -> bool {
    let u = c as u32;
    (0x09 <= u && u <= 0x0D) || u == 0x20 || u == 0x85 || u == 0xA0 || u == 0x1680 || (0x2000 <= u
        && u <= 0x200A) || u == 0x2028 || u == 0x2029 || u == 0x202F || u == 0x205F || u == 0x3000
}

/// Whether `c` has the Unicode `XID_Start` property (identifier head).
pub uninterp spec fn is_xid_start_char(c: char) -> bool;

/// Whether `c` has the Unicode `XID_Continue` property (identifier tail).
pub uninterp spec fn is_xid_continue_char(c: char) -> bool;

/// Relies on `char::is_whitespace`: true exactly on the Unicode
/// `White_Space` code points, the fixed list written out in `is_space_char`.
#[verifier::external_body]
pub fn char_is_space(c: char) -> (r: bool)
    ensures
        r == is_space_char(c),
{
    c.is_whitespace()
}

/// Relies on `unicode_ident::is_xid_start`: a table lookup of the
/// `XID_Start` property, a function of the character alone.
#[verifier::external_body]
pub fn char_is_xid_start(c: char) -> (r: bool)
    ensures
        r == is_xid_start_char(c),
{
    unicode_ident::is_xid_start(c)
}

/// Relies on `unicode_ident::is_xid_continue`: a table lookup of the
/// `XID_Continue` property, a function of the character alone.
#[verifier::external_body]
pub fn char_is_xid_continue(c: char) -> (r: bool)
    ensures
        r == is_xid_continue_char(c),
{
    unicode_ident::is_xid_continue(c)
}

/// Relies on `char::from_u32`: every scalar value (below the surrogate
/// range or between it and 0x10FFFF) is the code of exactly one `char`.
#[verifier::external_body]
pub fn char_from_code(v: u32) -> (c: char)
    requires
        is_scalar(v),
    ensures
        c as u32 == v,
{
    char::from_u32(v).unwrap()
}

/// Relies on `str::chars`: it yields exactly the characters of the
/// string's view, and their UTF-8 encoding is the string's byte length,
/// which is a `usize`.
#[verifier::external_body]
pub fn str_to_chars(s: &str) -> (r: Vec<char>)
    ensures
        r@ == s@,
        encode_utf8(r@).len() <= usize::MAX,
{
    s.chars().collect()
}

/// Relies on `String`'s `FromIterator<char>`: collecting characters builds
/// the string of exactly those characters.
#[verifier::external_body]
pub fn chars_to_string(v: &Vec<char>) -> (r: String)
    ensures
        r@ == v@,
{
    v.iter().collect()
}

/// The UTF-8 byte length of the first `i` characters of `s`: the byte
/// offset that a span boundary at character index `i` corresponds to.
pub open spec fn byte_off(s: Seq<char>, i: int) -> int {
    encode_utf8(s.take(i)).len() as int
}

/// The whole line's UTF-8 encoding fits in a `usize`, as it does for every
/// line that arrived as a Rust string.
pub open spec fn fits_usize(s: Seq<char>) -> bool {
    encode_utf8(s).len() <= usize::MAX
}

/// A sequence encodes to at least one byte per character.
pub proof fn lemma_encode_at_least_len(s: Seq<char>)
    ensures
        encode_utf8(s).len() >= s.len(),
    decreases s.len(),
{
    if s.len() > 0 {
        lemma_encode_at_least_len(s.drop_first());
        lemma_scalar_len(s[0]);
    }
}

/// A line whose UTF-8 encoding fits in a `usize` has at most that many
/// characters.
pub proof fn lemma_fits_len(s: Seq<char>)
    requires
        fits_usize(s),
    ensures
        s.len() <= usize::MAX,
{
    lemma_encode_at_least_len(s);
}

/// A character encodes to between one and four bytes.
pub proof fn lemma_scalar_len(c: char)
    ensures
        1 <= encode_scalar(c as u32).len() <= 4,
{
    char_is_scalar(c);
}

/// Splitting a character sequence splits its UTF-8 encoding.
pub proof fn lemma_encode_concat(a: Seq<char>, b: Seq<char>)
    ensures
        encode_utf8(a + b) == encode_utf8(a) + encode_utf8(b),
    decreases a.len(),
{
    if a.len() == 0 {
        assert(a + b == b);
        assert(encode_utf8(a) + encode_utf8(b) == encode_utf8(b));
    } else {
        lemma_encode_concat(a.drop_first(), b);
        assert((a + b).drop_first() == a.drop_first() + b);
        assert(encode_utf8(a + b) == encode_scalar((a + b)[0] as u32) + encode_utf8(
            (a + b).drop_first(),
        ));
        assert(encode_scalar(a[0] as u32) + (encode_utf8(a.drop_first()) + encode_utf8(b))
            == (encode_scalar(a[0] as u32) + encode_utf8(a.drop_first())) + encode_utf8(b));
    }
}

/// Consuming one character advances the byte offset by that character's
/// UTF-8 width.
pub proof fn lemma_byte_off_step(s: Seq<char>, i: int)
    requires
        0 <= i < s.len(),
    ensures
        byte_off(s, i + 1) == byte_off(s, i) + encode_scalar(s[i] as u32).len(),
{
    assert(s.take(i + 1) == s.take(i) + seq![s[i]]);
    lemma_encode_concat(s.take(i), seq![s[i]]);
    assert(encode_utf8(seq![s[i]]) == encode_scalar(s[i] as u32) + encode_utf8(
        Seq::<char>::empty(),
    )) by {
        assert(seq![s[i]].drop_first() == Seq::<char>::empty());
    }
}

/// Byte offsets grow with the character index.
pub proof fn lemma_byte_off_mono(s: Seq<char>, i: int, j: int)
    requires
        0 <= i <= j <= s.len(),
    ensures
        byte_off(s, i) <= byte_off(s, j),
    decreases j - i,
{
    if i < j {
        lemma_byte_off_mono(s, i, j - 1);
        lemma_byte_off_step(s, j - 1);
        lemma_scalar_len(s[j - 1]);
    }
}

/// The byte offset of the end of the line is the line's UTF-8 length.
pub proof fn lemma_byte_off_full(s: Seq<char>)
    ensures
        byte_off(s, s.len() as int) == encode_utf8(s).len(),
{
    assert(s.take(s.len() as int) == s);
}

/// The UTF-8 width of one character, computed from its code.
pub fn char_len(c: char) -> (n: usize)
    ensures
        n == encode_scalar(c as u32).len(),
{
    let u = c as u32;
    if u < 0x80 {
        1
    } else if u < 0x800 {
        2
    } else if u < 0x10000 {
        3
    } else {
        4
    }
}

/// The byte offset of character index `i`.
pub fn byte_offset(s: &Vec<char>, i: usize) -> (off: usize)
    requires
        i <= s@.len(),
        fits_usize(s@),
    ensures
        off == byte_off(s@, i as int),
{
    let mut k: usize = 0;
    let mut off: usize = 0;
    assert(s@.take(0) == Seq::<char>::empty());
    while k < i
        invariant
            k <= i <= s@.len(),
            fits_usize(s@),
            off == byte_off(s@, k as int),
        decreases i - k,
    {
        proof {
            lemma_byte_off_step(s@, k as int);
            lemma_byte_off_mono(s@, k as int + 1, s@.len() as int);
            lemma_byte_off_full(s@);
        }
        off = off + char_len(s[k]);
        k = k + 1;
    }
    off
}

} // verus!
