//! Data-provider-side helpers: the market-status payload shape and the
//! conversion of a brokerage ticker into the data provider's symbol,
//! which drops every `_US_EQ` (or, failing that, `_EQ`) marker and
//! upper-cases the rest.

use vstd::prelude::*;
use vstd::string::{StrSliceExecFns, StringSliceAdditionalSpecFns};
use crate::text::{chars_of_bytes, string_from_ascii, to_upper_byte, upper_byte};

verus! {

/// Whether the exchange is open, as the data provider reports it.
#[derive(Clone, Debug, PartialEq)]
pub struct MarketStatus {
    pub exchange: String,
    pub holiday: Option<String>,
    pub is_open: bool,
    pub session: String,
    pub timezone: String,
    pub t: u64,
}

/// The bytes of `"_US_EQ"`.
pub open spec fn spec_pat_us_eq() -> Seq<u8> {
    seq![95u8, 85u8, 83u8, 95u8, 69u8, 81u8]
}

/// The bytes of `"_EQ"`.
pub open spec fn spec_pat_eq() -> Seq<u8> {
    seq![95u8, 69u8, 81u8]
}

/// Whether `pat` occurs anywhere in `s`.
pub open spec fn spec_contains_pat(s: Seq<u8>, pat: Seq<u8>) -> bool {
    exists|i: int|
        0 <= i && i + pat.len() <= s.len() && #[trigger] s.subrange(i, i + pat.len() as int)
            == pat
}

/// `s` with every occurrence of `pat` removed, scanning left to right.
pub open spec fn spec_strip_all(s: Seq<u8>, pat: Seq<u8>) -> Seq<u8>
    decreases s.len(),
{
    if pat.len() == 0 || s.len() == 0 {
        s
    } else if s.len() >= pat.len() && s.subrange(0, pat.len() as int) == pat {
        spec_strip_all(s.skip(pat.len() as int), pat)
    } else {
        seq![s[0]] + spec_strip_all(s.skip(1), pat)
    }
}

/// Every byte upper-cased.
pub open spec fn spec_upper_all(s: Seq<u8>) -> Seq<u8> {
    s.map_values(|b: u8| upper_byte(b))
}

/// The data provider's symbol for a brokerage ticker, over the
/// ticker's bytes.
pub open spec fn spec_fh_bytes(s: Seq<u8>) -> Seq<u8> {
    spec_upper_all(
        if spec_contains_pat(s, spec_pat_us_eq()) {
            spec_strip_all(s, spec_pat_us_eq())
        } else if spec_contains_pat(s, spec_pat_eq()) {
            spec_strip_all(s, spec_pat_eq())
        } else {
            s
        },
    )
}

/// The data provider's symbol for a brokerage ticker.
pub open spec fn spec_fh_ticker(s: Seq<char>) -> Seq<char> {
    chars_of_bytes(spec_fh_bytes(s.map_values(|c: char| c as u8)))
}

/// Whether `s` matches `pat` at offset `at`.
fn matches_at(s: &Vec<u8>, pat: &Vec<u8>, at: usize) -> (r: bool)
    requires
        at + pat@.len() <= s@.len(),
    ensures
        r == (s@.subrange(at as int, at + pat@.len()) == pat@),
{
    let s_len: usize = s.len();
    let mut j: usize = 0;
    while j < pat.len()
        invariant
            at + pat@.len() <= s@.len(),
            s_len == s@.len(),
            j <= pat@.len(),
            forall|k: int| 0 <= k < j ==> s@[at + k] == pat@[k],
        decreases pat@.len() - j,
    {
        proof {
            assert(at + j < s@.len());
        }
        if s[at + j] != pat[j] {
            proof {
                assert(s@.subrange(at as int, at + pat@.len())[j as int] != pat@[j as int]);
            }
            return false;
        }
        j = j + 1;
    }
    proof {
        assert(s@.subrange(at as int, at + pat@.len()) =~= pat@);
    }
    true
}

/// Whether `pat` occurs anywhere in `s`.
fn contains_pat(s: &Vec<u8>, pat: &Vec<u8>) -> (r: bool)
    ensures
        r == spec_contains_pat(s@, pat@),
{
    if pat.len() > s.len() {
        return false;
    }
    let last: usize = s.len() - pat.len();
    let mut i: usize = 0;
    loop
        invariant
            pat@.len() <= s@.len(),
            last == s@.len() - pat@.len(),
            i <= last,
            forall|k: int|
                0 <= k < i ==> #[trigger] s@.subrange(k, k + pat@.len() as int) != pat@,
        ensures
            forall|k: int|
                0 <= k <= last ==> #[trigger] s@.subrange(k, k + pat@.len() as int) != pat@,
        decreases last - i,
    {
        if matches_at(s, pat, i) {
            return true;
        }
        if i == last {
            break;
        }
        i = i + 1;
    }
    false
}

/// `s` with every occurrence of `pat` removed.
fn strip_all(s: &Vec<u8>, pat: &Vec<u8>) -> (r: Vec<u8>)
    requires
        pat@.len() >= 1,
    ensures
        r@ == spec_strip_all(s@, pat@),
        (forall|j: int| 0 <= j < s@.len() ==> (#[trigger] s@[j]) < 128) ==> (forall|i: int|
            0 <= i < r@.len() ==> (#[trigger] r@[i]) < 128),
{
    let mut out: Vec<u8> = Vec::new();
    proof {
        assert(s@.skip(0) =~= s@);
        assert(Seq::<u8>::empty() + spec_strip_all(s@, pat@) =~= spec_strip_all(s@, pat@));
    }
    let mut i: usize = 0;
    while i < s.len()
        invariant
            pat@.len() >= 1,
            i <= s@.len(),
            spec_strip_all(s@, pat@) == out@ + spec_strip_all(s@.skip(i as int), pat@),
            (forall|j: int| 0 <= j < s@.len() ==> (#[trigger] s@[j]) < 128) ==> (forall|k: int|
                0 <= k < out@.len() ==> (#[trigger] out@[k]) < 128),
        decreases s@.len() - i,
    {
        let remaining: usize = s.len() - i;
        if remaining >= pat.len() && matches_at(s, pat, i) {
            proof {
                assert(s@.skip(i as int).subrange(0, pat@.len() as int) =~= s@.subrange(
                    i as int,
                    i + pat@.len(),
                ));
                assert(s@.skip(i as int).skip(pat@.len() as int) =~= s@.skip(
                    i + pat@.len(),
                ));
            }
            i = i + pat.len();
        } else {
            proof {
                if s@.skip(i as int).len() >= pat@.len() {
                    assert(s@.skip(i as int).subrange(0, pat@.len() as int) =~= s@.subrange(
                        i as int,
                        i + pat@.len(),
                    ));
                }
                assert(s@.skip(i as int).skip(1) =~= s@.skip(i + 1));
                assert(s@.skip(i as int)[0] == s@[i as int]);
                assert(out@ + (seq![s@[i as int]] + spec_strip_all(s@.skip(i + 1), pat@))
                    =~= out@.push(s@[i as int]) + spec_strip_all(s@.skip(i + 1), pat@));
            }
            let b: u8 = s[i];
            out.push(b);
            i = i + 1;
        }
    }
    proof {
        assert(s@.skip(s@.len() as int).len() == 0);
        assert(out@ + spec_strip_all(s@.skip(s@.len() as int), pat@) =~= out@);
    }
    out
}

/// The byte sequence of `"_US_EQ"`.
fn pat_us_eq() -> (r: Vec<u8>)
    ensures
        r@ == spec_pat_us_eq(),
{
    let mut v: Vec<u8> = Vec::new();
    v.push(95);
    v.push(85);
    v.push(83);
    v.push(95);
    v.push(69);
    v.push(81);
    proof {
        assert(v@ =~= spec_pat_us_eq());
    }
    v
}

/// The byte sequence of `"_EQ"`.
fn pat_eq() -> (r: Vec<u8>)
    ensures
        r@ == spec_pat_eq(),
{
    let mut v: Vec<u8> = Vec::new();
    v.push(95);
    v.push(69);
    v.push(81);
    proof {
        assert(v@ =~= spec_pat_eq());
    }
    v
}

/// Converts a brokerage ticker to the data provider's symbol: every
/// `_US_EQ` marker is removed — or every `_EQ` marker when no `_US_EQ`
/// occurs — and the remainder is upper-cased.
pub fn convert_to_fh_ticker(ticker: &String) -> (r: String)
    requires
        vstd::utf8::is_ascii_chars(ticker@),
    ensures
        r@ == spec_fh_ticker(ticker@),
{
    broadcast use vstd::string::is_ascii_spec_bytes;

    let t: &str = ticker.as_str();
    let bytes: Vec<u8> = t.as_bytes_vec();
    proof {
        assert(vstd::string::is_ascii(t));
        assert(t.spec_bytes() =~= Seq::new(t@.len(), |i: int| t@.index(i) as u8));
        assert(bytes@ =~= ticker@.map_values(|c: char| c as u8));
        vstd::utf8::is_ascii_chars_nat_bound(ticker@);
        assert forall|i: int| 0 <= i < bytes@.len() implies (#[trigger] bytes@[i]) < 128 by {
            assert(bytes@[i] == ticker@[i] as u8);
            assert((ticker@[i] as nat) < 128);
            crate::text::lemma_ascii_char_to_byte(ticker@[i]);
        }
    }
    let us = pat_us_eq();
    let eq = pat_eq();
    let stripped: Vec<u8> = if contains_pat(&bytes, &us) {
        strip_all(&bytes, &us)
    } else if contains_pat(&bytes, &eq) {
        strip_all(&bytes, &eq)
    } else {
        bytes
    };
    proof {
        assert(forall|j: int| 0 <= j < stripped@.len() ==> (#[trigger] stripped@[j]) < 128);
    }
    let mut upper: Vec<u8> = Vec::new();
    let mut i: usize = 0;
    while i < stripped.len()
        invariant
            i <= stripped@.len(),
            upper@ == spec_upper_all(stripped@.take(i as int)),
            forall|j: int| 0 <= j < stripped@.len() ==> (#[trigger] stripped@[j]) < 128,
        decreases stripped@.len() - i,
    {
        upper.push(to_upper_byte(stripped[i]));
        proof {
            assert(spec_upper_all(stripped@.take(i + 1)) =~= spec_upper_all(
                stripped@.take(i as int),
            ).push(upper_byte(stripped@[i as int])));
        }
        i = i + 1;
    }
    proof {
        assert(stripped@.take(stripped@.len() as int) =~= stripped@);
        assert forall|j: int| 0 <= j < upper@.len() implies (#[trigger] upper@[j]) < 128 by {
            assert(upper@[j] == upper_byte(stripped@[j]));
        }
    }
    string_from_ascii(upper)
}

} // verus!
