//! ASCII text helpers: case-insensitive ticker comparison, case
//! mapping, and the one conversion from checked ASCII bytes back into a
//! `String`.

use vstd::prelude::*;
use vstd::string::StrSliceExecFns;
use crate::types::{valid_label, valid_label_char};

verus! {

/// ASCII lower-casing of one byte.
pub open spec fn lower_byte(b: u8) -> u8 {
    if 65 <= b <= 90 {
        (b + 32) as u8
    } else {
        b
    }
}

/// ASCII upper-casing of one byte.
pub open spec fn upper_byte(b: u8) -> u8 {
    if 97 <= b <= 122 {
        (b - 32) as u8
    } else {
        b
    }
}

/// Equality of two character sequences without regard to ASCII case.
pub open spec fn spec_eq_ci(a: Seq<char>, b: Seq<char>) -> bool {
    a.len() == b.len() && forall|i: int|
        0 <= i < a.len() ==> lower_byte((#[trigger] a[i]) as u8) == lower_byte(b[i] as u8)
}

/// An ASCII character's code point survives the cast to a byte.
pub proof fn lemma_ascii_char_to_byte(c: char)
    requires
        (c as nat) < 128,
    ensures
        (c as u8) < 128,
        (c as u8) as nat == c as nat,
        (c as u32) < 128,
{
}

/// A character whose code point is below 128 sits in the ASCII range.
pub proof fn lemma_label_char_ascii(c: char)
    requires
        (c as u32) < 128,
    ensures
        '\0' <= c <= '\u{7f}',
{
}

/// A valid label is in particular ASCII.
pub proof fn lemma_valid_label_is_ascii(s: Seq<char>)
    requires
        valid_label(s),
    ensures
        vstd::utf8::is_ascii_chars(s),
{
    assert forall|i: int| 0 <= i < s.len() implies '\0' <= #[trigger] s[i] <= '\u{7f}' by {
        assert(valid_label_char(s[i]));
        lemma_label_char_ascii(s[i]);
    }
}

/// ASCII lower-casing of one byte.
pub fn to_lower_byte(b: u8) -> (r: u8)
    ensures
        r == lower_byte(b),
{
    if 65 <= b && b <= 90 {
        b + 32
    } else {
        b
    }
}

/// ASCII upper-casing of one byte.
pub fn to_upper_byte(b: u8) -> (r: u8)
    ensures
        r == upper_byte(b),
{
    if 97 <= b && b <= 122 {
        b - 32
    } else {
        b
    }
}

/// Compares two ASCII strings for equality without regard to case.
pub fn eq_ignore_ascii_case_str(a: &str, b: &str) -> (r: bool)
    requires
        vstd::string::is_ascii(a),
        vstd::string::is_ascii(b),
    ensures
        r == spec_eq_ci(a@, b@),
{
    let a_len: usize = a.unicode_len();
    let b_len: usize = b.unicode_len();
    if a_len != b_len {
        return false;
    }
    let mut i: usize = 0;
    while i < a_len
        invariant
            vstd::string::is_ascii(a),
            vstd::string::is_ascii(b),
            a_len == a@.len(),
            b_len == b@.len(),
            a_len == b_len,
            i <= a_len,
            forall|j: int| 0 <= j < i ==> lower_byte((#[trigger] a@[j]) as u8) == lower_byte(
                b@[j] as u8,
            ),
        decreases a_len - i,
    {
        let ca: u8 = a.get_ascii(i);
        let cb: u8 = b.get_ascii(i);
        if to_lower_byte(ca) != to_lower_byte(cb) {
            return false;
        }
        i = i + 1;
    }
    true
}

/// The chars of an ASCII byte sequence, byte for byte.
pub open spec fn chars_of_bytes(bytes: Seq<u8>) -> Seq<char> {
    bytes.map_values(|b: u8| b as char)
}

/// Relies on `String::from_utf8`: a sequence of ASCII bytes is valid
/// UTF-8 and decodes to the string whose characters carry the same code
/// points, one per byte.
#[verifier::external_body]
pub fn string_from_ascii(bytes: Vec<u8>) -> (r: String)
    requires
        forall|i: int| 0 <= i < bytes@.len() ==> (#[trigger] bytes@[i]) < 128,
    ensures
        r@ == chars_of_bytes(bytes@),
{
    String::from_utf8(bytes).unwrap()
}

} // verus!
