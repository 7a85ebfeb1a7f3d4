//! The snapshot text format: records written one per line, fields
//! separated by a bar, numbers in canonical decimal.  Everything a
//! refresh persists — instruments, positions, working orders, the
//! balance — is written by the encoders here and read back by the
//! decoders, and reading back what was written yields field-equal data.

use vstd::prelude::*;
use vstd::arithmetic::div_mod::lemma_fundamental_div_mod;
use vstd::string::{StrSliceExecFns, StringExecFns};
use crate::text::{chars_of_bytes, string_from_ascii};
use crate::types::{valid_label, valid_label_char, BalanceObject, BalanceV, Instrument, InstrumentV, LimitOrder, LimitOrderV, Position, PositionV};

verus! {

/// The field separator, a bar.
pub const SEP: u8 = 124;

/// The record separator, a line feed.
pub const NL: u8 = 10;

/// The minus sign.
pub const MINUS: u8 = 45;

pub open spec fn is_digit_byte(b: u8) -> bool {
    48 <= b <= 57
}

pub open spec fn is_sep_byte(b: u8) -> bool {
    b == SEP || b == NL
}

/// The canonical decimal digits of `n`: no leading zero except for
/// zero itself.
pub open spec fn dec_digits(n: nat) -> Seq<u8>
    decreases n,
{
    if n < 10 {
        seq![(48 + n) as u8]
    } else {
        dec_digits(n / 10).push((48 + n % 10) as u8)
    }
}

/// The number a digit string denotes.
pub open spec fn dec_val(s: Seq<u8>) -> int
    decreases s.len(),
{
    if s.len() == 0 {
        0
    } else {
        10 * dec_val(s.drop_last()) + (s.last() - 48)
    }
}

/// Decimal digits are digits, there is at least one, and only zero
/// starts with a zero digit.
pub proof fn lemma_dec_digits_shape(n: nat)
    ensures
        dec_digits(n).len() >= 1,
        forall|i: int| 0 <= i < dec_digits(n).len() ==> is_digit_byte(#[trigger] dec_digits(n)[i]),
        n >= 10 ==> dec_digits(n)[0] != 48,
        n >= 10 ==> dec_digits(n).len() >= 2,
        n < 10 ==> dec_digits(n) == seq![(48 + n) as u8],
    decreases n,
{
    if n >= 10 {
        lemma_dec_digits_shape(n / 10);
        assert(n / 10 >= 1) by (nonlinear_arith)
            requires
                n >= 10,
        {}
        assert(n % 10 < 10) by (nonlinear_arith)
            requires
                n >= 10,
        {}
        assert(dec_digits(n) == dec_digits(n / 10).push((48 + n % 10) as u8));
        assert forall|i: int| 0 <= i < dec_digits(n).len() implies is_digit_byte(
            #[trigger] dec_digits(n)[i],
        ) by {
            if i < dec_digits(n / 10).len() {
                assert(dec_digits(n)[i] == dec_digits(n / 10)[i]);
            }
        }
        if n / 10 < 10 {
            assert(dec_digits(n / 10) == seq![(48 + n / 10) as u8]);
            assert(dec_digits(n)[0] == (48 + n / 10) as u8);
        }
    }
}

/// Reading the canonical digits of `n` gives back `n`.
pub proof fn lemma_dec_digits_val(n: nat)
    ensures
        dec_val(dec_digits(n)) == n,
    decreases n,
{
    if n < 10 {
        let d = (48 + n) as u8;
        assert(d == 48 + n);
        assert(dec_digits(n) == seq![d]);
        assert(seq![d].drop_last().len() == 0);
        assert(dec_val(seq![d].drop_last()) == 0);
        assert(seq![d].last() == d);
        assert(dec_val(seq![d]) == 10 * 0 + (d - 48));
    } else {
        lemma_dec_digits_val(n / 10);
        let whole = dec_digits(n / 10).push((48 + n % 10) as u8);
        assert(whole.drop_last() =~= dec_digits(n / 10));
        assert(whole.last() == (48 + n % 10) as u8);
        assert(n % 10 < 10 && n / 10 * 10 + n % 10 == n) by {
            lemma_fundamental_div_mod(n as int, 10);
        }
    }
}

/// A digit string's value is not negative.
pub proof fn lemma_dec_val_nonneg(s: Seq<u8>)
    requires
        forall|i: int| 0 <= i < s.len() ==> is_digit_byte(#[trigger] s[i]),
    ensures
        dec_val(s) >= 0,
    decreases s.len(),
{
    if s.len() > 0 {
        lemma_dec_val_nonneg(s.drop_last());
        assert(is_digit_byte(s[s.len() - 1]));
    }
}

/// Two canonical digit strings of the same value are the same string;
/// in particular a value's digits are uniquely readable.
pub proof fn lemma_dec_val_of_canonical(s: Seq<u8>)
    requires
        s.len() >= 1,
        forall|i: int| 0 <= i < s.len() ==> is_digit_byte(#[trigger] s[i]),
        s.len() >= 2 ==> s[0] != 48,
    ensures
        dec_digits(dec_val(s) as nat) == s,
    decreases s.len(),
{
    lemma_dec_val_nonneg(s);
    if s.len() == 1 {
        assert(s.drop_last().len() == 0);
        assert(dec_val(s.drop_last()) == 0);
        assert(s.last() == s[0]);
        assert(dec_val(s) == 10 * 0 + (s[0] - 48));
        assert(is_digit_byte(s[0]));
        assert(dec_digits((s[0] - 48) as nat) == seq![(48 + (s[0] - 48) as nat) as u8]);
        assert(seq![(48 + (s[0] - 48) as nat) as u8] =~= s);
    } else {
        let s0 = s.drop_last();
        assert(forall|i: int| 0 <= i < s0.len() ==> is_digit_byte(#[trigger] s0[i]));
        lemma_dec_val_of_canonical(s0);
        lemma_dec_val_nonneg(s0);
        let v = dec_val(s) as nat;
        let v0 = dec_val(s0) as nat;
        assert(dec_val(s) == 10 * v0 + (s.last() - 48));
        assert(v0 >= 1) by {
            if v0 == 0 {
                assert(dec_digits(0nat) == seq![48u8]);
                assert(s0[0] == 48);
                assert(s[0] == s0[0]);
            }
        }
        assert(v >= 10);
        assert(v / 10 == v0 && v % 10 == s.last() - 48) by {
            lemma_fundamental_div_mod(v as int, 10);
            vstd::arithmetic::div_mod::lemma_fundamental_div_mod_converse(
                v as int,
                10,
                v0 as int,
                (s.last() - 48) as int,
            );
        }
        assert(dec_digits(v) == dec_digits(v0).push(s.last()));
        assert(dec_digits(v0).push(s.last()) =~= s);
    }
}

/// The end of the digit run starting at `i`: the first position at or
/// after `i` holding no digit.
pub open spec fn digit_run_end(s: Seq<u8>, i: int) -> int
    decreases s.len() - i,
{
    if i < 0 {
        i
    } else if i >= s.len() {
        s.len() as int
    } else if !is_digit_byte(s[i]) {
        i
    } else {
        digit_run_end(s, i + 1)
    }
}

/// The end of the label run starting at `i`: the first position at or
/// after `i` holding a separator.
pub open spec fn label_run_end(s: Seq<u8>, i: int) -> int
    decreases s.len() - i,
{
    if i < 0 {
        i
    } else if i >= s.len() {
        s.len() as int
    } else if is_sep_byte(s[i]) {
        i
    } else {
        label_run_end(s, i + 1)
    }
}

/// Appends the canonical decimal digits of `n`.
pub fn push_u64(out: &mut Vec<u8>, n: u64)
    ensures
        final(out)@ == old(out)@ + dec_digits(n as nat),
    decreases n,
{
    if n < 10 {
        out.push(48 + (n as u8));
        proof {
            assert(old(out)@.push((48 + n) as u8) =~= old(out)@ + dec_digits(n as nat));
        }
    } else {
        let q: u64 = n / 10;
        let r: u64 = n % 10;
        push_u64(out, q);
        out.push(48 + (r as u8));
        proof {
            assert((old(out)@ + dec_digits(q as nat)).push((48 + r) as u8) =~= old(out)@ + (
            dec_digits(q as nat).push((48 + (n as nat) % 10) as u8)));
        }
    }
}

/// Reads the canonical decimal number whose digits start at `start`.
/// Success means the digit run there is non-empty, canonical (no
/// leading zero), and fits a `u64`; the run's value and its end come
/// back.
pub fn parse_u64(s: &Vec<u8>, start: usize) -> (r: Option<(u64, usize)>)
    requires
        start <= s@.len(),
    ensures
        r matches Some(p) ==> {
            let end = digit_run_end(s@, start as int);
            &&& p.1 == end
            &&& start < end <= s@.len()
            &&& s@.subrange(start as int, end) == dec_digits(p.0 as nat)
        },
        r is None ==> {
            let end = digit_run_end(s@, start as int);
            ||| end == start
            ||| (s@[start as int] == 48 && end > start + 1)
            ||| dec_val(s@.subrange(start as int, end)) > u64::MAX
        },
{
    let ghost run_end = digit_run_end(s@, start as int);
    let mut j: usize = start;
    let mut acc: u64 = 0;
    let mut overflowed: bool = false;
    while j < s.len() && 48 <= s[j] && s[j] <= 57
        invariant
            start <= j <= s@.len(),
            run_end == digit_run_end(s@, start as int),
            digit_run_end(s@, start as int) == digit_run_end(s@, j as int),
            forall|k: int| start <= k < j ==> is_digit_byte(#[trigger] s@[k]),
            !overflowed ==> acc == dec_val(s@.subrange(start as int, j as int)),
            overflowed ==> dec_val(s@.subrange(start as int, j as int)) > u64::MAX,
            overflowed ==> j > start,
        decreases s@.len() - j,
    {
        let d: u8 = s[j] - 48;
        proof {
            assert(s@.subrange(start as int, j + 1) =~= s@.subrange(start as int, j as int).push(
                s@[j as int],
            ));
            assert(s@.subrange(start as int, j + 1).drop_last() =~= s@.subrange(
                start as int,
                j as int,
            ));
            lemma_dec_val_nonneg(s@.subrange(start as int, j as int));
        }
        if !overflowed {
            match acc.checked_mul(10) {
                None => {
                    overflowed = true;
                },
                Some(shifted) => match shifted.checked_add(d as u64) {
                    None => {
                        overflowed = true;
                    },
                    Some(next) => {
                        acc = next;
                    },
                },
            }
        }
        j = j + 1;
    }
    proof {
        assert(digit_run_end(s@, j as int) == j);
        assert(run_end == j);
    }
    if j == start {
        return None;
    }
    if overflowed {
        return None;
    }
    if s[start] == 48 && j > start + 1 {
        return None;
    }
    proof {
        lemma_dec_val_of_canonical(s@.subrange(start as int, j as int));
    }
    Some((acc, j))
}

/// The bytes of a label, one per character.
pub open spec fn label_bytes(t: Seq<char>) -> Seq<u8> {
    t.map_values(|c: char| c as u8)
}

/// An ASCII character survives the trip through a byte.
proof fn lemma_char_byte_char(c: char)
    requires
        (c as u32) < 128,
    ensures
        (c as u8) < 128,
        ((c as u8) as char) == c,
{
    vstd::utf8::char_u32_cast(c, c as u32);
}

/// A small byte survives the trip through a character.
proof fn lemma_byte_char_byte(b: u8)
    requires
        b < 128,
    ensures
        ((b as char) as u32) < 128,
        ((b as char) as u8) == b,
{
}

/// A valid label's bytes are below 128, carry no separator, and decode
/// back to the same characters.
pub proof fn lemma_label_bytes(t: Seq<char>)
    requires
        valid_label(t),
    ensures
        label_bytes(t).len() == t.len(),
        forall|i: int|
            0 <= i < t.len() ==> (#[trigger] label_bytes(t)[i]) < 128 && !is_sep_byte(
                label_bytes(t)[i],
            ),
        chars_of_bytes(label_bytes(t)) == t,
{
    assert forall|i: int|
        0 <= i < t.len() implies (#[trigger] label_bytes(t)[i]) < 128 && !is_sep_byte(
        label_bytes(t)[i],
    ) by {
        assert(valid_label_char(t[i]));
        lemma_char_byte_char(t[i]);
        assert(('|' as u32) == 124 && ('\n' as u32) == 10);
        if label_bytes(t)[i] == SEP {
            vstd::utf8::char_u32_cast(t[i], t[i] as u32);
            assert(t[i] as u32 == 124);
            assert(t[i] == '|');
        }
        if label_bytes(t)[i] == NL {
            vstd::utf8::char_u32_cast(t[i], t[i] as u32);
            assert(t[i] as u32 == 10);
            assert(t[i] == '\n');
        }
    }
    assert forall|i: int| 0 <= i < t.len() implies #[trigger] chars_of_bytes(label_bytes(t))[i]
        == t[i] by {
        assert(valid_label_char(t[i]));
        lemma_char_byte_char(t[i]);
    }
    assert(chars_of_bytes(label_bytes(t)) =~= t);
}

/// Small bytes decode to characters that encode back to the same bytes,
/// and to a valid label when no separator occurs among them.
pub proof fn lemma_bytes_chars(b: Seq<u8>)
    requires
        forall|i: int| 0 <= i < b.len() ==> (#[trigger] b[i]) < 128,
    ensures
        chars_of_bytes(b).len() == b.len(),
        label_bytes(chars_of_bytes(b)) == b,
        (forall|i: int| 0 <= i < b.len() ==> !is_sep_byte(#[trigger] b[i])) ==> valid_label(
            chars_of_bytes(b),
        ),
{
    assert forall|i: int| 0 <= i < b.len() implies #[trigger] label_bytes(chars_of_bytes(b))[i]
        == b[i] by {
        lemma_byte_char_byte(b[i]);
    }
    assert(label_bytes(chars_of_bytes(b)) =~= b);
    if forall|i: int| 0 <= i < b.len() ==> !is_sep_byte(#[trigger] b[i]) {
        assert forall|i: int| 0 <= i < b.len() implies valid_label_char(
            #[trigger] chars_of_bytes(b)[i],
        ) by {
            lemma_byte_char_byte(b[i]);
            assert(('|' as u32) == 124 && ('\n' as u32) == 10);
            assert(!is_sep_byte(b[i]));
            if chars_of_bytes(b)[i] == '|' {
                assert((b[i] as char) as u32 == 124);
            }
            if chars_of_bytes(b)[i] == '\n' {
                assert((b[i] as char) as u32 == 10);
            }
        }
    }
}

/// The label run from `i` ends exactly where the separator stands.
pub proof fn lemma_label_run_end(s: Seq<u8>, i: int, e: int)
    requires
        0 <= i <= e <= s.len(),
        forall|k: int| i <= k < e ==> !is_sep_byte(#[trigger] s[k]),
        e == s.len() || is_sep_byte(s[e]),
    ensures
        label_run_end(s, i) == e,
    decreases e - i,
{
    if i < e {
        lemma_label_run_end(s, i + 1, e);
    }
}

/// The digit run from `i` ends exactly where the digits stop.
pub proof fn lemma_digit_run_end(s: Seq<u8>, i: int, e: int)
    requires
        0 <= i <= e <= s.len(),
        forall|k: int| i <= k < e ==> is_digit_byte(#[trigger] s[k]),
        e == s.len() || !is_digit_byte(s[e]),
    ensures
        digit_run_end(s, i) == e,
    decreases e - i,
{
    if i < e {
        lemma_digit_run_end(s, i + 1, e);
    }
}

/// Appends a label's bytes.
pub fn push_label(out: &mut Vec<u8>, label: &String)
    requires
        valid_label(label@),
    ensures
        final(out)@ == old(out)@ + label_bytes(label@),
{
    broadcast use vstd::string::is_ascii_spec_bytes;

    let t: &str = label.as_str();
    proof {
        crate::text::lemma_valid_label_is_ascii(label@);
        assert(vstd::string::is_ascii(t));
    }
    let mut bytes: Vec<u8> = t.as_bytes_vec();
    proof {
        assert(bytes@ =~= label_bytes(label@));
    }
    out.append(&mut bytes);
}

/// Reads the label whose bytes start at `start`, up to the next
/// separator.
pub fn parse_label(s: &Vec<u8>, start: usize) -> (r: (String, usize))
    requires
        start <= s@.len(),
        forall|i: int| 0 <= i < s@.len() ==> (#[trigger] s@[i]) < 128,
    ensures
        r.1 == label_run_end(s@, start as int),
        start <= r.1 <= s@.len(),
        r.0@ == chars_of_bytes(s@.subrange(start as int, r.1 as int)),
        valid_label(r.0@),
{
    let mut j: usize = start;
    let mut field: Vec<u8> = Vec::new();
    while j < s.len() && s[j] != SEP && s[j] != NL
        invariant
            start <= j <= s@.len(),
            forall|i: int| 0 <= i < s@.len() ==> (#[trigger] s@[i]) < 128,
            field@ == s@.subrange(start as int, j as int),
            forall|k: int| start <= k < j ==> !is_sep_byte(#[trigger] s@[k]),
        decreases s@.len() - j,
    {
        let b: u8 = s[j];
        field.push(b);
        proof {
            assert(s@.subrange(start as int, j + 1) =~= s@.subrange(start as int, j as int).push(
                s@[j as int],
            ));
        }
        j = j + 1;
    }
    proof {
        lemma_label_run_end(s@, start as int, j as int);
        assert forall|i: int| 0 <= i < field@.len() implies (#[trigger] field@[i]) < 128 by {
            assert(field@[i] == s@[start + i]);
        }
        lemma_bytes_chars(field@);
    }
    let label: String = string_from_ascii(field);
    (label, j)
}

/// The bytes of a signed number: a minus sign before the magnitude's
/// digits for negative values.
pub open spec fn enc_i64(v: i64) -> Seq<u8> {
    if v < 0 {
        seq![MINUS] + dec_digits((-(v as int)) as nat)
    } else {
        dec_digits(v as nat)
    }
}

/// Appends a signed number.
pub fn push_i64(out: &mut Vec<u8>, v: i64)
    ensures
        final(out)@ == old(out)@ + enc_i64(v),
{
    if v < 0 {
        out.push(MINUS);
        let mag: u64 = (-(v as i128)) as u64;
        push_u64(out, mag);
        proof {
            assert((old(out)@.push(MINUS)) + dec_digits(mag as nat) =~= old(out)@ + (seq![MINUS]
                + dec_digits((-(v as int)) as nat)));
        }
    } else {
        push_u64(out, v as u64);
    }
}

/// The bytes of an optional number: nothing at all for `None`.
pub open spec fn enc_opt_u64(v: Option<u64>) -> Seq<u8> {
    match v {
        None => Seq::<u8>::empty(),
        Some(n) => dec_digits(n as nat),
    }
}

/// Appends an optional number.
pub fn push_opt_u64(out: &mut Vec<u8>, v: &Option<u64>)
    ensures
        final(out)@ == old(out)@ + enc_opt_u64(*v),
{
    match v {
        None => {
            proof {
                assert(old(out)@ + Seq::<u8>::empty() =~= old(out)@);
            }
        },
        Some(n) => {
            push_u64(out, *n);
        },
    }
}

/// One field of a record: an unsigned number, a signed number, an
/// optional number, or a label.
pub enum FieldValue {
    Num(u64),
    Snum(i64),
    OptNum(Option<u64>),
    Label(String),
}

/// The mathematical value of a [`FieldValue`].
pub ghost enum FieldV {
    Num(u64),
    Snum(i64),
    OptNum(Option<u64>),
    Label(Seq<char>),
}

impl View for FieldValue {
    type V = FieldV;

    open spec fn view(&self) -> FieldV {
        match self {
            FieldValue::Num(n) => FieldV::Num(*n),
            FieldValue::Snum(v) => FieldV::Snum(*v),
            FieldValue::OptNum(o) => FieldV::OptNum(*o),
            FieldValue::Label(t) => FieldV::Label(t@),
        }
    }
}

/// The shape of one field, as a record's schema lists it.
#[derive(Clone, Copy, Debug, PartialEq, Eq, Structural)]
pub enum FieldKind {
    Num,
    Snum,
    OptNum,
    Label,
}

pub open spec fn kind_of(f: FieldV) -> FieldKind {
    match f {
        FieldV::Num(_) => FieldKind::Num,
        FieldV::Snum(_) => FieldKind::Snum,
        FieldV::OptNum(_) => FieldKind::OptNum,
        FieldV::Label(_) => FieldKind::Label,
    }
}

/// Whether the fields fit the schema, with every label valid.
pub open spec fn fields_fit(fvs: Seq<FieldV>, ks: Seq<FieldKind>) -> bool {
    &&& fvs.len() == ks.len()
    &&& forall|i: int| 0 <= i < fvs.len() ==> kind_of(#[trigger] fvs[i]) == ks[i]
    &&& forall|i: int|
        0 <= i < fvs.len() ==> ((#[trigger] fvs[i]) matches FieldV::Label(t) ==> valid_label(t))
}

/// The bytes of one field.
pub open spec fn enc_field(f: FieldV) -> Seq<u8> {
    match f {
        FieldV::Num(n) => dec_digits(n as nat),
        FieldV::Snum(v) => enc_i64(v),
        FieldV::OptNum(o) => enc_opt_u64(o),
        FieldV::Label(t) => label_bytes(t),
    }
}

/// The bytes of one record: each field followed by a bar, the record
/// closed by a line feed.
pub open spec fn enc_fields(fvs: Seq<FieldV>) -> Seq<u8>
    decreases fvs.len(),
{
    if fvs.len() == 0 {
        seq![NL]
    } else {
        enc_field(fvs[0]) + seq![SEP] + enc_fields(fvs.drop_first())
    }
}

/// The bytes of the fields alone, bars included, without the closing
/// line feed.
pub open spec fn enc_fields_front(fvs: Seq<FieldV>) -> Seq<u8>
    decreases fvs.len(),
{
    if fvs.len() == 0 {
        Seq::<u8>::empty()
    } else {
        enc_field(fvs[0]) + seq![SEP] + enc_fields_front(fvs.drop_first())
    }
}

/// A record's bytes are its fields' bytes and the closing line feed.
pub proof fn lemma_enc_fields_split(fvs: Seq<FieldV>)
    ensures
        enc_fields(fvs) == enc_fields_front(fvs) + seq![NL],
    decreases fvs.len(),
{
    if fvs.len() == 0 {
        assert(enc_fields(fvs) =~= enc_fields_front(fvs) + seq![NL]);
    } else {
        lemma_enc_fields_split(fvs.drop_first());
        assert(enc_field(fvs[0]) + seq![SEP] + (enc_fields_front(fvs.drop_first()) + seq![NL])
            =~= (enc_field(fvs[0]) + seq![SEP] + enc_fields_front(fvs.drop_first())) + seq![NL]);
    }
}

/// Appending a field extends the front bytes on the right.
pub proof fn lemma_enc_front_push(fvs: Seq<FieldV>, f: FieldV)
    ensures
        enc_fields_front(fvs.push(f)) == enc_fields_front(fvs) + enc_field(f) + seq![SEP],
    decreases fvs.len(),
{
    if fvs.len() == 0 {
        assert(fvs.push(f)[0] == f);
        assert(fvs.push(f).drop_first() =~= Seq::<FieldV>::empty());
        assert(enc_fields_front(fvs.push(f)) == enc_field(f) + seq![SEP] + enc_fields_front(
            Seq::<FieldV>::empty(),
        ));
        assert(enc_fields_front(Seq::<FieldV>::empty()).len() == 0);
        assert(fvs =~= Seq::<FieldV>::empty());
        assert(enc_fields_front(fvs.push(f)) =~= enc_fields_front(fvs) + enc_field(f) + seq![SEP]);
    } else {
        assert(fvs.push(f).drop_first() =~= fvs.drop_first().push(f));
        lemma_enc_front_push(fvs.drop_first(), f);
        assert(enc_field(fvs[0]) + seq![SEP] + (enc_fields_front(fvs.drop_first()) + enc_field(f)
            + seq![SEP]) =~= (enc_field(fvs[0]) + seq![SEP] + enc_fields_front(fvs.drop_first()))
            + enc_field(f) + seq![SEP]);
        assert(fvs.push(f)[0] == fvs[0]);
    }
}

/// Writes one record: every field, each closed by a bar, then the line
/// feed.
pub fn encode_fields(out: &mut Vec<u8>, fields: &Vec<FieldValue>)
    requires
        forall|i: int|
            0 <= i < fields@.len() ==> ((#[trigger] fields@[i])@ matches FieldV::Label(t)
                ==> valid_label(t)),
    ensures
        final(out)@ == old(out)@ + enc_fields(fields@.map_values(|f: FieldValue| f@)),
{
    let ghost views = fields@.map_values(|f: FieldValue| f@);
    let mut i: usize = 0;
    while i < fields.len()
        invariant
            i <= fields@.len(),
            views == fields@.map_values(|f: FieldValue| f@),
            forall|k: int|
                0 <= k < fields@.len() ==> ((#[trigger] fields@[k])@ matches FieldV::Label(t)
                    ==> valid_label(t)),
            out@ == old(out)@ + enc_fields_front(views.take(i as int)),
        decreases fields@.len() - i,
    {
        let ghost before = out@;
        match &fields[i] {
            FieldValue::Num(n) => {
                push_u64(out, *n);
            },
            FieldValue::Snum(v) => {
                push_i64(out, *v);
            },
            FieldValue::OptNum(o) => {
                push_opt_u64(out, o);
            },
            FieldValue::Label(t) => {
                proof {
                    assert(fields@[i as int]@ matches FieldV::Label(u) ==> valid_label(u));
                }
                push_label(out, t);
            },
        }
        out.push(SEP);
        proof {
            lemma_enc_front_push(views.take(i as int), views[i as int]);
            assert(views.take(i + 1) =~= views.take(i as int).push(views[i as int]));
            assert((before + enc_field(views[i as int])).push(SEP) =~= old(out)@ + (
            enc_fields_front(views.take(i as int)) + enc_field(views[i as int]) + seq![SEP]));
        }
        i = i + 1;
    }
    out.push(NL);
    proof {
        assert(views.take(views.len() as int) =~= views);
        lemma_enc_fields_split(views);
        assert((old(out)@ + enc_fields_front(views)).push(NL) =~= old(out)@ + (enc_fields_front(
            views,
        ) + seq![NL]));
    }
}

/// Whether the bytes of `f`, a field of shape `kind`, stand at `start`
/// with a separator (or the end of input) right behind them.
pub open spec fn field_at(s: Seq<u8>, start: int, f: FieldV, kind: FieldKind) -> bool {
    &&& kind_of(f) == kind
    &&& (f matches FieldV::Label(t) ==> valid_label(t))
    &&& 0 <= start
    &&& start + enc_field(f).len() <= s.len()
    &&& s.subrange(start, start + enc_field(f).len()) == enc_field(f)
    &&& (start + enc_field(f).len() == s.len() || is_sep_byte(s[start + enc_field(f).len()]))
}

/// Reads one field of the given shape.  Success consumes exactly the
/// field's canonical bytes; whenever such a field stands at `start`,
/// reading succeeds and yields it.
pub fn parse_field(s: &Vec<u8>, start: usize, kind: FieldKind) -> (r: Option<(FieldValue, usize)>)
    requires
        start <= s@.len(),
        forall|i: int| 0 <= i < s@.len() ==> (#[trigger] s@[i]) < 128,
    ensures
        r matches Some(p) ==> {
            &&& start <= p.1 <= s@.len()
            &&& s@.subrange(start as int, p.1 as int) == enc_field(p.0@)
            &&& kind_of(p.0@) == kind
            &&& (p.0@ matches FieldV::Label(t) ==> valid_label(t))
        },
        forall|f: FieldV|
            field_at(s@, start as int, f, kind) ==> (r matches Some(p) && p.0@ == f && p.1 == start
                + enc_field(f).len()),
{
    match kind {
        FieldKind::Label => {
            let (label, end) = parse_label(s, start);
            proof {
                lemma_bytes_chars(s@.subrange(start as int, end as int));
                assert forall|f: FieldV| field_at(s@, start as int, f, FieldKind::Label) implies (
                FieldV::Label(label@) == f && end == start + enc_field(f).len()) by {
                    let t = f->Label_0;
                    lemma_label_bytes(t);
                    assert forall|k: int| start <= k < start + t.len() implies !is_sep_byte(
                        #[trigger] s@[k],
                    ) by {
                        assert(s@[k] == enc_field(f)[k - start]);
                    }
                    if start + t.len() < s@.len() {
                        lemma_label_run_end(s@, start as int, start + t.len());
                    } else {
                        lemma_label_run_end(s@, start as int, start + t.len());
                    }
                    assert(end == start + t.len());
                    assert(s@.subrange(start as int, end as int) == label_bytes(t));
                    assert(label@ == chars_of_bytes(label_bytes(t)));
                }
            }
            Some((FieldValue::Label(label), end))
        },
        FieldKind::Num => {
            match parse_u64(s, start) {
                None => {
                    proof {
                        assert forall|f: FieldV| !field_at(s@, start as int, f, FieldKind::Num) by {
                            if field_at(s@, start as int, f, FieldKind::Num) {
                                let n = f->Num_0;
                                lemma_num_forces_parse(s@, start as int, n);
                            }
                        }
                    }
                    None
                },
                Some((n, end)) => {
                    proof {
                        assert forall|f: FieldV| field_at(
                            s@,
                            start as int,
                            f,
                            FieldKind::Num,
                        ) implies (FieldV::Num(n) == f && end == start + enc_field(f).len()) by {
                            let m = f->Num_0;
                            lemma_num_forces_parse(s@, start as int, m);
                            lemma_dec_digits_val(m as nat);
                            lemma_dec_digits_val(n as nat);
                            assert(s@.subrange(start as int, end as int) == dec_digits(m as nat));
                        }
                    }
                    Some((FieldValue::Num(n), end))
                },
            }
        },
        FieldKind::OptNum => {
            if start == s.len() || s[start] == SEP || s[start] == NL {
                proof {
                    assert forall|f: FieldV| field_at(
                        s@,
                        start as int,
                        f,
                        FieldKind::OptNum,
                    ) implies (FieldV::OptNum(None) == f && start == start + enc_field(f).len())
                        by {
                        match f {
                            FieldV::OptNum(Some(m)) => {
                                lemma_dec_digits_shape(m as nat);
                                assert(s@[start as int] == enc_field(f)[0]);
                                assert(is_digit_byte(s@[start as int]));
                            },
                            _ => {},
                        }
                    }
                    assert(s@.subrange(start as int, start as int)
                        =~= enc_opt_u64(Option::<u64>::None));
                }
                Some((FieldValue::OptNum(None), start))
            } else {
                match parse_u64(s, start) {
                    None => {
                        proof {
                            assert forall|f: FieldV| !field_at(
                                s@,
                                start as int,
                                f,
                                FieldKind::OptNum,
                            ) by {
                                if field_at(s@, start as int, f, FieldKind::OptNum) {
                                    match f {
                                        FieldV::OptNum(Some(m)) => {
                                            lemma_num_forces_parse(s@, start as int, m);
                                        },
                                        _ => {},
                                    }
                                }
                            }
                        }
                        None
                    },
                    Some((n, end)) => {
                        proof {
                            assert forall|f: FieldV| field_at(
                                s@,
                                start as int,
                                f,
                                FieldKind::OptNum,
                            ) implies (FieldV::OptNum(Some(n)) == f && end == start + enc_field(
                                f,
                            ).len()) by {
                                match f {
                                    FieldV::OptNum(Some(m)) => {
                                        lemma_num_forces_parse(s@, start as int, m);
                                        lemma_dec_digits_val(m as nat);
                                        lemma_dec_digits_val(n as nat);
                                        assert(s@.subrange(start as int, end as int) == dec_digits(
                                            m as nat,
                                        ));
                                    },
                                    _ => {},
                                }
                            }
                        }
                        Some((FieldValue::OptNum(Some(n)), end))
                    },
                }
            }
        },
        FieldKind::Snum => {
            if start < s.len() && s[start] == MINUS {
                match parse_u64(s, start + 1) {
                    None => {
                        proof {
                            assert forall|f: FieldV| !field_at(
                                s@,
                                start as int,
                                f,
                                FieldKind::Snum,
                            ) by {
                                if field_at(s@, start as int, f, FieldKind::Snum) {
                                    let m = f->Snum_0;
                                    lemma_snum_forces_parse(s@, start as int, m);
                                }
                            }
                        }
                        None
                    },
                    Some((n, end)) => {
                        if n == 0 || n > 9_223_372_036_854_775_808u64 {
                            proof {
                                assert forall|f: FieldV| !field_at(
                                    s@,
                                    start as int,
                                    f,
                                    FieldKind::Snum,
                                ) by {
                                    if field_at(s@, start as int, f, FieldKind::Snum) {
                                        let m = f->Snum_0;
                                        lemma_snum_forces_parse(s@, start as int, m);
                                        if m < 0 {
                                            lemma_dec_digits_val(n as nat);
                                        }
                                    }
                                }
                            }
                            return None;
                        }
                        let v: i64 = if n == 9_223_372_036_854_775_808u64 {
                            i64::MIN
                        } else {
                            -(n as i64)
                        };
                        proof {
                            assert(s@.subrange(start as int, end as int) =~= seq![MINUS]
                                + s@.subrange(start + 1, end as int));
                            assert(s@.subrange(start as int, end as int) == enc_i64(v));
                            assert forall|f: FieldV| field_at(
                                s@,
                                start as int,
                                f,
                                FieldKind::Snum,
                            ) implies (FieldV::Snum(v) == f && end == start + enc_field(f).len())
                                by {
                                let m = f->Snum_0;
                                lemma_snum_forces_parse(s@, start as int, m);
                                if m >= 0 {
                                    lemma_dec_digits_shape(m as nat);
                                    assert(s@[start as int] == enc_field(f)[0]);
                                } else {
                                    let mag = (-(m as int)) as nat;
                                    assert forall|k: int|
                                        0 <= k < dec_digits(mag).len() implies s@[start + 1 + k]
                                        == dec_digits(mag)[k] by {
                                        assert(s@.subrange(start as int, start + enc_i64(m).len())[
                                            1 + k] == s@[start + 1 + k]);
                                        assert(enc_i64(m)[1 + k] == dec_digits(mag)[k]);
                                    }
                                    assert(s@.subrange(start + 1, start + enc_field(f).len())
                                        =~= dec_digits(mag));
                                    lemma_dec_digits_val(mag);
                                    lemma_dec_digits_val(n as nat);
                                }
                            }
                        }
                        Some((FieldValue::Snum(v), end))
                    },
                }
            } else {
                match parse_u64(s, start) {
                    None => {
                        proof {
                            assert forall|f: FieldV| !field_at(
                                s@,
                                start as int,
                                f,
                                FieldKind::Snum,
                            ) by {
                                if field_at(s@, start as int, f, FieldKind::Snum) {
                                    let m = f->Snum_0;
                                    lemma_snum_forces_parse(s@, start as int, m);
                                    if m < 0 {
                                        assert(s@[start as int] == MINUS);
                                    }
                                }
                            }
                        }
                        None
                    },
                    Some((n, end)) => {
                        if n > i64::MAX as u64 {
                            proof {
                                assert forall|f: FieldV| !field_at(
                                    s@,
                                    start as int,
                                    f,
                                    FieldKind::Snum,
                                ) by {
                                    if field_at(s@, start as int, f, FieldKind::Snum) {
                                        let m = f->Snum_0;
                                        lemma_snum_forces_parse(s@, start as int, m);
                                        if m < 0 {
                                            assert(s@[start as int] == MINUS);
                                        } else {
                                            lemma_dec_digits_val(n as nat);
                                        }
                                    }
                                }
                            }
                            return None;
                        }
                        let v: i64 = n as i64;
                        proof {
                            assert forall|f: FieldV| field_at(
                                s@,
                                start as int,
                                f,
                                FieldKind::Snum,
                            ) implies (FieldV::Snum(v) == f && end == start + enc_field(f).len())
                                by {
                                let m = f->Snum_0;
                                lemma_snum_forces_parse(s@, start as int, m);
                                if m < 0 {
                                    assert(s@[start as int] == enc_field(f)[0]);
                                } else {
                                    lemma_dec_digits_val(m as nat);
                                    lemma_dec_digits_val(n as nat);
                                    assert(s@.subrange(start as int, end as int) == dec_digits(
                                        m as nat,
                                    ));
                                }
                            }
                        }
                        Some((FieldValue::Snum(v), end))
                    },
                }
            }
        },
    }
}

/// When the canonical digits of `n` stand at `start` with a separator
/// behind them, the number parser succeeds on exactly them.
proof fn lemma_num_forces_parse(s: Seq<u8>, start: int, n: u64)
    requires
        0 <= start,
        start + dec_digits(n as nat).len() <= s.len(),
        s.subrange(start, start + dec_digits(n as nat).len()) == dec_digits(n as nat),
        start + dec_digits(n as nat).len() == s.len() || is_sep_byte(
            s[start + dec_digits(n as nat).len()],
        ),
    ensures
        digit_run_end(s, start) == start + dec_digits(n as nat).len(),
        digit_run_end(s, start) > start,
        s[start] == 48 ==> digit_run_end(s, start) == start + 1,
        dec_val(s.subrange(start, digit_run_end(s, start))) == n,
{
    let digits = dec_digits(n as nat);
    lemma_dec_digits_shape(n as nat);
    assert forall|k: int| start <= k < start + digits.len() implies is_digit_byte(
        #[trigger] s[k],
    ) by {
        assert(s[k] == digits[k - start]);
    }
    lemma_digit_run_end(s, start, start + digits.len());
    lemma_dec_digits_val(n as nat);
    if s[start] == 48 {
        assert(digits[0] == 48);
        assert(n < 10);
    }
}

/// Whether a whole record of fields `fvs`, fitting schema `ks`, stands
/// at `start`.
pub open spec fn fields_at(s: Seq<u8>, start: int, fvs: Seq<FieldV>, ks: Seq<FieldKind>) -> bool {
    &&& fields_fit(fvs, ks)
    &&& 0 <= start
    &&& start + enc_fields(fvs).len() <= s.len()
    &&& s.subrange(start, start + enc_fields(fvs).len()) == enc_fields(fvs)
}

/// A subrange splits at any interior point.
proof fn lemma_subrange_split(s: Seq<u8>, a: int, m: int, b: int)
    requires
        0 <= a <= m <= b <= s.len(),
    ensures
        s.subrange(a, b) == s.subrange(a, m) + s.subrange(m, b),
{
    assert(s.subrange(a, b) =~= s.subrange(a, m) + s.subrange(m, b));
}

/// A record's bytes split at any field boundary.
pub proof fn lemma_enc_fields_decompose(fvs: Seq<FieldV>, k: int)
    requires
        0 <= k <= fvs.len(),
    ensures
        enc_fields(fvs) == enc_fields_front(fvs.take(k)) + enc_fields(fvs.skip(k)),
    decreases k,
{
    if k == 0 {
        assert(fvs.take(0).len() == 0);
        assert(fvs.skip(0) =~= fvs);
        assert(enc_fields_front(fvs.take(0)).len() == 0);
        assert(enc_fields(fvs) =~= enc_fields_front(fvs.take(0)) + enc_fields(fvs));
    } else {
        lemma_enc_fields_decompose(fvs, k - 1);
        let prev = fvs.skip(k - 1);
        assert(prev[0] == fvs[k - 1]);
        assert(prev.drop_first() =~= fvs.skip(k));
        assert(enc_fields(prev) == enc_field(fvs[k - 1]) + seq![SEP] + enc_fields(fvs.skip(k)));
        assert(fvs.take(k) =~= fvs.take(k - 1).push(fvs[k - 1]));
        lemma_enc_front_push(fvs.take(k - 1), fvs[k - 1]);
        assert(enc_fields_front(fvs.take(k - 1)) + (enc_field(fvs[k - 1]) + seq![SEP]
            + enc_fields(fvs.skip(k))) =~= (enc_fields_front(fvs.take(k - 1)) + enc_field(
            fvs[k - 1],
        ) + seq![SEP]) + enc_fields(fvs.skip(k)));
    }
}

/// At a field boundary of a record standing at `start`, the next field
/// stands at the cursor with its bar right behind it.
proof fn lemma_fields_at_step(
    s: Seq<u8>,
    start: int,
    cursor: int,
    fvs: Seq<FieldV>,
    ks: Seq<FieldKind>,
    k: int,
)
    requires
        fields_at(s, start, fvs, ks),
        0 <= k < fvs.len(),
        cursor == start + enc_fields_front(fvs.take(k)).len(),
    ensures
        field_at(s, cursor, fvs[k], ks[k]),
        cursor + enc_field(fvs[k]).len() < s.len(),
        s[cursor + enc_field(fvs[k]).len()] == SEP,
        cursor + enc_field(fvs[k]).len() + 1 == start + enc_fields_front(fvs.take(k + 1)).len(),
        cursor + enc_field(fvs[k]).len() + 1 <= start + enc_fields(fvs).len(),
{
    let flen = enc_field(fvs[k]).len() as int;
    let total = enc_fields(fvs).len() as int;
    lemma_enc_fields_decompose(fvs, k);
    let front = enc_fields_front(fvs.take(k));
    let rest = enc_fields(fvs.skip(k));
    assert(fvs.skip(k)[0] == fvs[k]);
    assert(fvs.skip(k).drop_first() =~= fvs.skip(k + 1));
    assert(fvs.skip(k).len() > 0);
    assert(rest == enc_field(fvs[k]) + seq![SEP] + enc_fields(fvs.skip(k + 1)));
    assert(enc_fields(fvs.skip(k + 1)).len() >= 1) by {
        lemma_enc_fields_split(fvs.skip(k + 1));
    }
    assert forall|i: int| 0 <= i < rest.len() implies s[cursor + i] == rest[i] by {
        assert(s.subrange(start, start + total)[cursor - start + i] == s[cursor + i]);
        assert(enc_fields(fvs)[cursor - start + i] == rest[i]);
    }
    assert forall|j: int| 0 <= j < flen implies s.subrange(cursor, cursor + flen)[j] == enc_field(
        fvs[k],
    )[j] by {
        assert(s[cursor + j] == rest[j]);
        assert(rest[j] == enc_field(fvs[k])[j]);
    }
    assert(s.subrange(cursor, cursor + flen) =~= enc_field(fvs[k]));
    assert(s[cursor + flen] == rest[flen]);
    assert(rest[flen] == SEP);
    assert(fields_fit(fvs, ks));
    assert(kind_of(fvs[k]) == ks[k]);
    assert(fvs[k] matches FieldV::Label(t) ==> valid_label(t));
    assert(field_at(s, cursor, fvs[k], ks[k]));
    assert(fvs.take(k + 1) =~= fvs.take(k).push(fvs[k]));
    lemma_enc_front_push(fvs.take(k), fvs[k]);
}

/// Past the last field of a record standing at `start`, the closing
/// line feed stands at the cursor.
proof fn lemma_fields_at_end(
    s: Seq<u8>,
    start: int,
    cursor: int,
    fvs: Seq<FieldV>,
    ks: Seq<FieldKind>,
)
    requires
        fields_at(s, start, fvs, ks),
        cursor == start + enc_fields_front(fvs).len(),
    ensures
        cursor < s.len(),
        s[cursor] == NL,
        cursor + 1 == start + enc_fields(fvs).len(),
{
    lemma_enc_fields_split(fvs);
    let total = enc_fields(fvs).len() as int;
    assert(total == enc_fields_front(fvs).len() + 1);
    assert(s.subrange(start, start + total)[cursor - start] == s[cursor]);
    assert(enc_fields(fvs)[cursor - start] == NL);
}

/// Reads one record against a schema.  Success consumes exactly the
/// record's canonical bytes and yields fields fitting the schema;
/// whenever a record of that schema stands at `start`, reading
/// succeeds and yields exactly its fields.
pub fn decode_fields(s: &Vec<u8>, start: usize, schema: &Vec<FieldKind>) -> (r: Option<
    (Vec<FieldValue>, usize),
>)
    requires
        start <= s@.len(),
        forall|i: int| 0 <= i < s@.len() ==> (#[trigger] s@[i]) < 128,
    ensures
        r matches Some(p) ==> {
            &&& start < p.1 <= s@.len()
            &&& s@.subrange(start as int, p.1 as int) == enc_fields(
                p.0@.map_values(|f: FieldValue| f@),
            )
            &&& fields_fit(p.0@.map_values(|f: FieldValue| f@), schema@)
        },
        forall|fvs: Seq<FieldV>|
            fields_at(s@, start as int, fvs, schema@) ==> (r matches Some(p)
                && p.0@.map_values(|f: FieldValue| f@) == fvs && p.1 == start + enc_fields(
                fvs,
            ).len()),
{
    let mut out: Vec<FieldValue> = Vec::new();
    let mut cursor: usize = start;
    let mut k: usize = 0;
    proof {
        assert(out@.map_values(|f: FieldValue| f@) =~= Seq::<FieldV>::empty());
        assert(s@.subrange(start as int, start as int) =~= enc_fields_front(
            Seq::<FieldV>::empty(),
        ));
    }
    while k < schema.len()
        invariant
            start <= cursor <= s@.len(),
            k <= schema@.len(),
            out@.len() == k,
            forall|i: int| 0 <= i < s@.len() ==> (#[trigger] s@[i]) < 128,
            fields_fit(out@.map_values(|f: FieldValue| f@), schema@.take(k as int)),
            s@.subrange(start as int, cursor as int) == enc_fields_front(
                out@.map_values(|f: FieldValue| f@),
            ),
            forall|fvs: Seq<FieldV>|
                fields_at(s@, start as int, fvs, schema@) ==> (out@.map_values(|f: FieldValue| f@)
                    == fvs.take(k as int) && cursor == start + enc_fields_front(
                    fvs.take(k as int),
                ).len()),
        decreases schema@.len() - k,
    {
        let ghost views = out@.map_values(|f: FieldValue| f@);
        proof {
            assert forall|fvs: Seq<FieldV>|
                fields_at(s@, start as int, fvs, schema@) implies field_at(
                s@,
                cursor as int,
                fvs[k as int],
                schema@[k as int],
            ) by {
                lemma_fields_at_step(s@, start as int, cursor as int, fvs, schema@, k as int);
            }
        }
        let parsed = parse_field(s, cursor, schema[k]);
        match parsed {
            None => {
                proof {
                    assert forall|fvs: Seq<FieldV>|
                        !fields_at(s@, start as int, fvs, schema@) by {
                        if fields_at(s@, start as int, fvs, schema@) {
                            assert(field_at(s@, cursor as int, fvs[k as int], schema@[k as int]));
                        }
                    }
                }
                return None;
            },
            Some((fv, end)) => {
                if !(end < s.len() && s[end] == SEP) {
                    proof {
                        assert forall|fvs: Seq<FieldV>|
                            !fields_at(s@, start as int, fvs, schema@) by {
                            if fields_at(s@, start as int, fvs, schema@) {
                                lemma_fields_at_step(
                                    s@,
                                    start as int,
                                    cursor as int,
                                    fvs,
                                    schema@,
                                    k as int,
                                );
                                assert(fv@ == fvs[k as int]);
                                assert(end == cursor + enc_field(fvs[k as int]).len());
                            }
                        }
                    }
                    return None;
                }
                let ghost fvg = fv@;
                out.push(fv);
                proof {
                    assert(out@.map_values(|f: FieldValue| f@) =~= views.push(fvg));
                    lemma_enc_front_push(views, fvg);
                    lemma_subrange_split(s@, start as int, cursor as int, end + 1);
                    assert(s@.subrange(cursor as int, end + 1) =~= s@.subrange(
                        cursor as int,
                        end as int,
                    ).push(s@[end as int]));
                    assert(s@.subrange(start as int, end + 1) =~= enc_fields_front(views)
                        + enc_field(fvg) + seq![SEP]);
                    assert(schema@.take(k + 1) =~= schema@.take(k as int).push(
                        schema@[k as int],
                    ));
                    assert(fields_fit(views.push(fvg), schema@.take(k + 1)));
                    assert forall|fvs: Seq<FieldV>|
                        fields_at(s@, start as int, fvs, schema@) implies (views.push(fvg)
                        == fvs.take(k + 1) && end + 1 == start + enc_fields_front(
                        fvs.take(k + 1),
                    ).len()) by {
                        lemma_fields_at_step(
                            s@,
                            start as int,
                            cursor as int,
                            fvs,
                            schema@,
                            k as int,
                        );
                        assert(fvg == fvs[k as int]);
                        assert(end == cursor + enc_field(fvs[k as int]).len());
                        assert(fvs.take(k + 1) =~= fvs.take(k as int).push(fvs[k as int]));
                        assert(views.push(fvg) =~= fvs.take(k + 1));
                    }
                }
                cursor = end + 1;
                k = k + 1;
            },
        }
    }
    let ghost views = out@.map_values(|f: FieldValue| f@);
    if cursor < s.len() && s[cursor] == NL {
        proof {
            lemma_enc_fields_split(views);
            lemma_subrange_split(s@, start as int, cursor as int, cursor + 1);
            assert(s@.subrange(cursor as int, cursor + 1) =~= seq![NL]);
            assert(enc_fields_front(views) + seq![NL] == enc_fields(views));
            assert(s@.subrange(start as int, cursor + 1) == enc_fields(views));
            assert(schema@.take(schema@.len() as int) =~= schema@);
            assert forall|fvs: Seq<FieldV>|
                fields_at(s@, start as int, fvs, schema@) implies (views == fvs && cursor + 1
                == start + enc_fields(fvs).len()) by {
                assert(fvs.take(schema@.len() as int) =~= fvs);
                lemma_fields_at_end(s@, start as int, cursor as int, fvs, schema@);
            }
        }
        Some((out, cursor + 1))
    } else {
        proof {
            assert(schema@.take(schema@.len() as int) =~= schema@);
            assert forall|fvs: Seq<FieldV>| !fields_at(s@, start as int, fvs, schema@) by {
                if fields_at(s@, start as int, fvs, schema@) {
                    assert(fvs.take(schema@.len() as int) =~= fvs);
                    lemma_fields_at_end(s@, start as int, cursor as int, fvs, schema@);
                }
            }
        }
        None
    }
}

/// Under the hypothesis that `enc_i64(m)` stands at `start` with a
/// separator behind it, the layout facts the signed parser needs.
proof fn lemma_snum_forces_parse(s: Seq<u8>, start: int, m: i64)
    requires
        0 <= start,
        start + enc_i64(m).len() <= s.len(),
        s.subrange(start, start + enc_i64(m).len()) == enc_i64(m),
        start + enc_i64(m).len() == s.len() || is_sep_byte(s[start + enc_i64(m).len()]),
    ensures
        m >= 0 ==> {
            &&& digit_run_end(s, start) == start + enc_i64(m).len()
            &&& digit_run_end(s, start) > start
            &&& (s[start] == 48 ==> digit_run_end(s, start) == start + 1)
            &&& dec_val(s.subrange(start, digit_run_end(s, start))) == m
            &&& is_digit_byte(s[start])
        },
        m < 0 ==> {
            &&& s[start] == MINUS
            &&& digit_run_end(s, start + 1) == start + enc_i64(m).len()
            &&& digit_run_end(s, start + 1) > start + 1
            &&& (s[start + 1] == 48 ==> digit_run_end(s, start + 1) == start + 2)
            &&& dec_val(s.subrange(start + 1, digit_run_end(s, start + 1))) == -(m as int)
            &&& 1 <= -(m as int) <= 9_223_372_036_854_775_808
        },
{
    if m >= 0 {
        assert(enc_i64(m) == dec_digits(m as nat));
        lemma_num_forces_parse(s, start, m as u64);
        lemma_dec_digits_shape(m as nat);
        assert(s[start] == dec_digits(m as nat)[0]);
    } else {
        let mag = (-(m as int)) as nat;
        assert(enc_i64(m) == seq![MINUS] + dec_digits(mag));
        assert(s[start] == enc_i64(m)[0]);
        let digits = dec_digits(mag);
        lemma_dec_digits_shape(mag);
        assert forall|k: int| start + 1 <= k < start + 1 + digits.len() implies is_digit_byte(
            #[trigger] s[k],
        ) by {
            assert(s[k] == enc_i64(m)[k - start]);
            assert(enc_i64(m)[k - start] == digits[k - start - 1]);
        }
        lemma_digit_run_end(s, start + 1, start + 1 + digits.len());
        assert forall|k: int| 0 <= k < digits.len() implies s[start + 1 + k] == digits[k] by {
            assert(s.subrange(start, start + enc_i64(m).len())[1 + k] == s[start + 1 + k]);
            assert(enc_i64(m)[1 + k] == digits[k]);
        }
        assert(s.subrange(start + 1, start + 1 + digits.len()) =~= digits);
        lemma_dec_digits_val(mag);
        if s[start + 1] == 48 {
            assert(digits[0] == 48);
            assert(mag < 10);
        }
    }
}

/// Every byte a record writes is ASCII.
pub proof fn lemma_enc_fields_ascii(fvs: Seq<FieldV>)
    requires
        forall|i: int|
            0 <= i < fvs.len() ==> ((#[trigger] fvs[i]) matches FieldV::Label(t) ==> valid_label(
                t,
            )),
    ensures
        forall|i: int| 0 <= i < enc_fields(fvs).len() ==> (#[trigger] enc_fields(fvs)[i]) < 128,
    decreases fvs.len(),
{
    if fvs.len() == 0 {
        assert(enc_fields(fvs) == seq![NL]);
    } else {
        assert(fvs.drop_first().len() == fvs.len() - 1);
        assert(forall|i: int|
            0 <= i < fvs.drop_first().len() ==> ((#[trigger] fvs.drop_first()[i])
                matches FieldV::Label(t) ==> valid_label(t)));
        lemma_enc_fields_ascii(fvs.drop_first());
        lemma_enc_field_ascii(fvs[0]);
        assert forall|i: int| 0 <= i < enc_fields(fvs).len() implies (#[trigger] enc_fields(
            fvs,
        )[i]) < 128 by {
            let a = enc_field(fvs[0]);
            let rest = enc_fields(fvs.drop_first());
            assert(enc_fields(fvs) == a + seq![SEP] + rest);
            if i < a.len() {
                assert(enc_fields(fvs)[i] == a[i]);
            } else if i == a.len() {
                assert(enc_fields(fvs)[i] == SEP);
            } else {
                assert(enc_fields(fvs)[i] == rest[i - a.len() - 1]);
            }
        }
    }
}

/// Every byte a field writes is ASCII.
proof fn lemma_enc_field_ascii(f: FieldV)
    requires
        f matches FieldV::Label(t) ==> valid_label(t),
    ensures
        forall|i: int| 0 <= i < enc_field(f).len() ==> (#[trigger] enc_field(f)[i]) < 128,
{
    match f {
        FieldV::Num(n) => {
            lemma_dec_digits_shape(n as nat);
        },
        FieldV::Snum(v) => {
            if v < 0 {
                lemma_dec_digits_shape((-(v as int)) as nat);
                assert forall|i: int| 0 <= i < enc_field(f).len() implies (#[trigger] enc_field(
                    f,
                )[i]) < 128 by {
                    if i >= 1 {
                        assert(enc_field(f)[i] == dec_digits((-(v as int)) as nat)[i - 1]);
                    }
                }
            } else {
                lemma_dec_digits_shape(v as nat);
            }
        },
        FieldV::OptNum(o) => {
            match o {
                None => {},
                Some(n) => {
                    lemma_dec_digits_shape(n as nat);
                },
            }
        },
        FieldV::Label(t) => {
            crate::snapshot::lemma_label_bytes(t);
        },
    }
}

/// The fields of one position, in snapshot order.
pub open spec fn position_fields(pv: PositionV) -> Seq<FieldV> {
    seq![
        FieldV::Label(pv.ticker),
        FieldV::Num(pv.quantity),
        FieldV::Num(pv.average_price),
        FieldV::Num(pv.current_price),
        FieldV::Num(pv.max_sell),
    ]
}

/// The snapshot bytes of one position.
pub open spec fn spec_enc_position(pv: PositionV) -> Seq<u8> {
    enc_fields(position_fields(pv))
}

/// Whether one position's record stands at `start`.
pub open spec fn position_at(s: Seq<u8>, start: int, pv: PositionV) -> bool {
    &&& valid_label(pv.ticker)
    &&& 0 <= start
    &&& start + spec_enc_position(pv).len() <= s.len()
    &&& s.subrange(start, start + spec_enc_position(pv).len()) == spec_enc_position(pv)
}

/// The schema of a position record.
fn position_schema() -> (r: Vec<FieldKind>)
    ensures
        r@ == seq![
            FieldKind::Label,
            FieldKind::Num,
            FieldKind::Num,
            FieldKind::Num,
            FieldKind::Num,
        ],
{
    let mut v: Vec<FieldKind> = Vec::new();
    v.push(FieldKind::Label);
    v.push(FieldKind::Num);
    v.push(FieldKind::Num);
    v.push(FieldKind::Num);
    v.push(FieldKind::Num);
    proof {
        assert(v@ =~= seq![
            FieldKind::Label,
            FieldKind::Num,
            FieldKind::Num,
            FieldKind::Num,
            FieldKind::Num,
        ]);
    }
    v
}

/// A copy of a string with the same characters.
fn copy_string(s: &String) -> (r: String)
    ensures
        r@ == s@,
{
    String::from_str(s.as_str())
}

/// Writes one position's record.
pub fn encode_position(out: &mut Vec<u8>, p: &Position)
    requires
        valid_label(p.ticker@),
    ensures
        final(out)@ == old(out)@ + spec_enc_position(p@),
{
    let mut fields: Vec<FieldValue> = Vec::new();
    fields.push(FieldValue::Label(copy_string(&p.ticker)));
    fields.push(FieldValue::Num(p.quantity));
    fields.push(FieldValue::Num(p.average_price));
    fields.push(FieldValue::Num(p.current_price));
    fields.push(FieldValue::Num(p.max_sell));
    proof {
        assert(fields@.map_values(|f: FieldValue| f@) =~= position_fields(p@));
    }
    encode_fields(out, &fields);
}

/// Reads one position's record.  Success consumes exactly the record's
/// bytes; whenever a position's record stands at `start`, reading
/// succeeds and yields a field-equal position.
pub fn decode_position(s: &Vec<u8>, start: usize) -> (r: Option<(Position, usize)>)
    requires
        start <= s@.len(),
        forall|i: int| 0 <= i < s@.len() ==> (#[trigger] s@[i]) < 128,
    ensures
        r matches Some(p) ==> {
            &&& start < p.1 <= s@.len()
            &&& s@.subrange(start as int, p.1 as int) == spec_enc_position(p.0@)
            &&& valid_label(p.0.ticker@)
        },
        forall|pv: PositionV|
            position_at(s@, start as int, pv) ==> (r matches Some(p) && p.0@ == pv && p.1 == start
                + spec_enc_position(pv).len()),
{
    let schema = position_schema();
    proof {
        assert forall|pv: PositionV|
            position_at(s@, start as int, pv) implies fields_at(
            s@,
            start as int,
            position_fields(pv),
            schema@,
        ) by {
            assert(fields_fit(position_fields(pv), schema@));
        }
    }
    let decoded = decode_fields(s, start, &schema);
    match decoded {
        None => {
            proof {
                assert forall|pv: PositionV| !position_at(s@, start as int, pv) by {
                    if position_at(s@, start as int, pv) {
                        assert(fields_at(s@, start as int, position_fields(pv), schema@));
                    }
                }
            }
            None
        },
        Some((fields, end)) => {
            let ghost views = fields@.map_values(|f: FieldValue| f@);
            proof {
                assert(views.len() == 5);
                assert(kind_of(views[0]) == FieldKind::Label);
                assert(kind_of(views[1]) == FieldKind::Num);
                assert(kind_of(views[2]) == FieldKind::Num);
                assert(kind_of(views[3]) == FieldKind::Num);
                assert(kind_of(views[4]) == FieldKind::Num);
            }
            let ticker: String = match &fields[0] {
                FieldValue::Label(t) => copy_string(t),
                _ => {
                    proof {
                        assert(views[0] == fields@[0]@);
                        assert(false);
                    }
                    return None;
                },
            };
            let quantity: u64 = match &fields[1] {
                FieldValue::Num(n) => *n,
                _ => {
                    proof {
                        assert(views[1] == fields@[1]@);
                        assert(false);
                    }
                    return None;
                },
            };
            let average_price: u64 = match &fields[2] {
                FieldValue::Num(n) => *n,
                _ => {
                    proof {
                        assert(views[2] == fields@[2]@);
                        assert(false);
                    }
                    return None;
                },
            };
            let current_price: u64 = match &fields[3] {
                FieldValue::Num(n) => *n,
                _ => {
                    proof {
                        assert(views[3] == fields@[3]@);
                        assert(false);
                    }
                    return None;
                },
            };
            let max_sell: u64 = match &fields[4] {
                FieldValue::Num(n) => *n,
                _ => {
                    proof {
                        assert(views[4] == fields@[4]@);
                        assert(false);
                    }
                    return None;
                },
            };
            let position = Position { ticker, quantity, average_price, current_price, max_sell };
            proof {
                assert(position_fields(position@) =~= views);
                assert forall|pv: PositionV|
                    position_at(s@, start as int, pv) implies (position@ == pv && end == start
                    + spec_enc_position(pv).len()) by {
                    assert(fields_at(s@, start as int, position_fields(pv), schema@));
                    assert(views == position_fields(pv));
                    assert(position_fields(position@)[0] == position_fields(pv)[0]);
                    assert(position_fields(position@)[1] == position_fields(pv)[1]);
                    assert(position_fields(position@)[2] == position_fields(pv)[2]);
                    assert(position_fields(position@)[3] == position_fields(pv)[3]);
                    assert(position_fields(position@)[4] == position_fields(pv)[4]);
                }
            }
            Some((position, end))
        },
    }
}

/// The snapshot bytes of a whole position list, one record per line.
pub open spec fn enc_position_list(pvs: Seq<PositionV>) -> Seq<u8>
    decreases pvs.len(),
{
    if pvs.len() == 0 {
        Seq::<u8>::empty()
    } else {
        spec_enc_position(pvs[0]) + enc_position_list(pvs.drop_first())
    }
}

/// Every ticker in the list is a valid label.
pub open spec fn positions_valid(pvs: Seq<PositionV>) -> bool {
    forall|i: int| 0 <= i < pvs.len() ==> valid_label((#[trigger] pvs[i]).ticker)
}

/// Appending a record extends the list's bytes on the right.
proof fn lemma_enc_plist_push(pvs: Seq<PositionV>, pv: PositionV)
    ensures
        enc_position_list(pvs.push(pv)) == enc_position_list(pvs) + spec_enc_position(pv),
    decreases pvs.len(),
{
    if pvs.len() == 0 {
        assert(pvs.push(pv)[0] == pv);
        assert(pvs.push(pv).drop_first() =~= Seq::<PositionV>::empty());
        assert(enc_position_list(pvs.push(pv)) == spec_enc_position(pv) + enc_position_list(
            Seq::<PositionV>::empty(),
        ));
        assert(spec_enc_position(pv) + enc_position_list(Seq::<PositionV>::empty())
            =~= enc_position_list(pvs) + spec_enc_position(pv));
    } else {
        assert(pvs.push(pv)[0] == pvs[0]);
        assert(pvs.push(pv).drop_first() =~= pvs.drop_first().push(pv));
        lemma_enc_plist_push(pvs.drop_first(), pv);
        assert(spec_enc_position(pvs[0]) + (enc_position_list(pvs.drop_first())
            + spec_enc_position(pv)) =~= (spec_enc_position(pvs[0]) + enc_position_list(
            pvs.drop_first(),
        )) + spec_enc_position(pv));
    }
}

/// A position list's bytes are ASCII.
proof fn lemma_enc_plist_ascii(pvs: Seq<PositionV>)
    requires
        positions_valid(pvs),
    ensures
        forall|i: int|
            0 <= i < enc_position_list(pvs).len() ==> (#[trigger] enc_position_list(pvs)[i]) < 128,
    decreases pvs.len(),
{
    if pvs.len() > 0 {
        assert(positions_valid(pvs.drop_first())) by {
            assert(forall|i: int|
                0 <= i < pvs.drop_first().len() ==> (#[trigger] pvs.drop_first()[i]) == pvs[i + 1]);
        }
        lemma_enc_plist_ascii(pvs.drop_first());
        assert(valid_label(pvs[0].ticker));
        lemma_enc_fields_ascii(position_fields(pvs[0]));
        assert forall|i: int|
            0 <= i < enc_position_list(pvs).len() implies (#[trigger] enc_position_list(pvs)[i])
            < 128 by {
            let a = spec_enc_position(pvs[0]);
            let rest = enc_position_list(pvs.drop_first());
            if i < a.len() {
                assert(enc_position_list(pvs)[i] == a[i]);
            } else {
                assert(enc_position_list(pvs)[i] == rest[i - a.len()]);
            }
        }
    }
}

/// Writes a whole position list as snapshot text.
pub fn encode_positions(ps: &Vec<Position>) -> (r: String)
    requires
        forall|i: int| 0 <= i < ps@.len() ==> valid_label((#[trigger] ps@[i]).ticker@),
    ensures
        r@ == chars_of_bytes(enc_position_list(ps@.map_values(|p: Position| p@))),
{
    let ghost views = ps@.map_values(|p: Position| p@);
    let mut bytes: Vec<u8> = Vec::new();
    let mut i: usize = 0;
    proof {
        assert(bytes@ =~= enc_position_list(views.take(0)));
    }
    while i < ps.len()
        invariant
            i <= ps@.len(),
            views == ps@.map_values(|p: Position| p@),
            forall|k: int| 0 <= k < ps@.len() ==> valid_label((#[trigger] ps@[k]).ticker@),
            bytes@ == enc_position_list(views.take(i as int)),
        decreases ps@.len() - i,
    {
        encode_position(&mut bytes, &ps[i]);
        proof {
            lemma_enc_plist_push(views.take(i as int), views[i as int]);
            assert(views.take(i + 1) =~= views.take(i as int).push(views[i as int]));
        }
        i = i + 1;
    }
    proof {
        assert(views.take(views.len() as int) =~= views);
        assert(positions_valid(views)) by {
            assert(forall|k: int| 0 <= k < views.len() ==> views[k] == ps@[k]@);
        }
        lemma_enc_plist_ascii(views);
    }
    string_from_ascii(bytes)
}

/// A list's bytes split at any record boundary.
proof fn lemma_enc_plist_decompose(pvs: Seq<PositionV>, k: int)
    requires
        0 <= k <= pvs.len(),
    ensures
        enc_position_list(pvs) == enc_position_list(pvs.take(k)) + enc_position_list(pvs.skip(k)),
    decreases k,
{
    if k == 0 {
        assert(pvs.take(0).len() == 0);
        assert(pvs.skip(0) =~= pvs);
        assert(enc_position_list(pvs) =~= enc_position_list(pvs.take(0)) + enc_position_list(pvs));
    } else {
        lemma_enc_plist_decompose(pvs, k - 1);
        let prev = pvs.skip(k - 1);
        assert(prev[0] == pvs[k - 1]);
        assert(prev.drop_first() =~= pvs.skip(k));
        assert(enc_position_list(prev) == spec_enc_position(pvs[k - 1]) + enc_position_list(
            pvs.skip(k),
        ));
        assert(pvs.take(k) =~= pvs.take(k - 1).push(pvs[k - 1]));
        lemma_enc_plist_push(pvs.take(k - 1), pvs[k - 1]);
        assert(enc_position_list(pvs.take(k - 1)) + (spec_enc_position(pvs[k - 1])
            + enc_position_list(pvs.skip(k))) =~= (enc_position_list(pvs.take(k - 1))
            + spec_enc_position(pvs[k - 1])) + enc_position_list(pvs.skip(k)));
    }
}

/// Reads a whole position list back from snapshot text.  Success means
/// the text is exactly a list's canonical encoding; text written by
/// [`encode_positions`] always reads back, field for field.
pub fn decode_positions(s: &str) -> (r: Option<Vec<Position>>)
    ensures
        r matches Some(ps) ==> s@ == chars_of_bytes(
            enc_position_list(ps@.map_values(|p: Position| p@)),
        ),
        forall|pvs: Seq<PositionV>|
            (positions_valid(pvs) && s@ == chars_of_bytes(enc_position_list(pvs))) ==> (r
                matches Some(ps) && ps@.map_values(|p: Position| p@) == pvs),
{
    broadcast use vstd::string::is_ascii_spec_bytes;

    if !s.is_ascii() {
        proof {
            assert forall|pvs: Seq<PositionV>|
                !(positions_valid(pvs) && s@ == chars_of_bytes(enc_position_list(pvs))) by {
                if positions_valid(pvs) && s@ == chars_of_bytes(enc_position_list(pvs)) {
                    lemma_enc_plist_ascii(pvs);
                    assert forall|i: int| 0 <= i < s@.len() implies '\0' <= #[trigger] s@[i]
                        <= '\u{7f}' by {
                        let e = enc_position_list(pvs);
                        assert(s@[i] == e[i] as char);
                        lemma_byte_char_byte(e[i]);
                        crate::text::lemma_label_char_ascii(s@[i]);
                    }
                    assert(vstd::utf8::is_ascii_chars(s@));
                }
            }
        }
        return None;
    }
    let bytes: Vec<u8> = s.as_bytes_vec();
    proof {
        assert(bytes@ =~= s@.map_values(|c: char| c as u8));
        vstd::utf8::is_ascii_chars_nat_bound(s@);
        assert forall|i: int| 0 <= i < bytes@.len() implies (#[trigger] bytes@[i]) < 128 by {
            assert(bytes@[i] == s@[i] as u8);
            assert((s@[i] as nat) < 128);
            crate::text::lemma_ascii_char_to_byte(s@[i]);
        }
        lemma_bytes_chars(bytes@);
        assert forall|i: int| 0 <= i < s@.len() implies #[trigger] chars_of_bytes(bytes@)[i]
            == s@[i] by {
            assert((s@[i] as nat) < 128);
            crate::text::lemma_ascii_char_to_byte(s@[i]);
            vstd::utf8::char_u32_cast(s@[i], s@[i] as u32);
        }
        assert(chars_of_bytes(bytes@) =~= s@);
        assert forall|pvs: Seq<PositionV>|
            (positions_valid(pvs) && s@ == chars_of_bytes(enc_position_list(pvs)))
                implies bytes@ == enc_position_list(pvs) by {
            lemma_enc_plist_ascii(pvs);
            lemma_bytes_chars(enc_position_list(pvs));
            assert(label_bytes(chars_of_bytes(bytes@)) == bytes@);
            assert(label_bytes(chars_of_bytes(enc_position_list(pvs))) == enc_position_list(pvs));
        }
    }
    let mut out: Vec<Position> = Vec::new();
    let mut cursor: usize = 0;
    proof {
        assert(out@.map_values(|p: Position| p@) =~= Seq::<PositionV>::empty());
        assert(bytes@.subrange(0, 0) =~= enc_position_list(Seq::<PositionV>::empty()));
    }
    while cursor < bytes.len()
        invariant
            cursor <= bytes@.len(),
            forall|i: int| 0 <= i < bytes@.len() ==> (#[trigger] bytes@[i]) < 128,
            chars_of_bytes(bytes@) == s@,
            forall|pvs: Seq<PositionV>|
                (positions_valid(pvs) && s@ == chars_of_bytes(enc_position_list(pvs)))
                    ==> bytes@ == enc_position_list(pvs),
            bytes@.subrange(0, cursor as int) == enc_position_list(
                out@.map_values(|p: Position| p@),
            ),
            forall|i: int|
                0 <= i < out@.len() ==> valid_label((#[trigger] out@[i]).ticker@),
            forall|pvs: Seq<PositionV>|
                (positions_valid(pvs) && bytes@ == enc_position_list(pvs)) ==> (out@.len()
                    <= pvs.len() && out@.map_values(|p: Position| p@) == pvs.take(
                    out@.len() as int,
                ) && cursor == enc_position_list(pvs.take(out@.len() as int)).len()),
        decreases bytes@.len() - cursor,
    {
        let ghost parsed = out@.map_values(|p: Position| p@);
        proof {
            assert forall|pvs: Seq<PositionV>|
                (positions_valid(pvs) && bytes@ == enc_position_list(pvs)) implies (parsed.len()
                < pvs.len() && position_at(bytes@, cursor as int, pvs[parsed.len() as int])) by {
                let k = parsed.len() as int;
                lemma_enc_plist_decompose(pvs, k);
                if k == pvs.len() {
                    assert(pvs.take(k) =~= pvs);
                    assert(cursor == enc_position_list(pvs).len());
                }
                assert(k < pvs.len());
                let rest = enc_position_list(pvs.skip(k));
                assert(pvs.skip(k)[0] == pvs[k]);
                assert(pvs.skip(k).drop_first() =~= pvs.skip(k + 1));
                assert(rest == spec_enc_position(pvs[k]) + enc_position_list(pvs.skip(k + 1)));
                assert forall|j: int| 0 <= j < rest.len() implies bytes@[cursor + j] == rest[j]
                    by {
                    assert(enc_position_list(pvs)[cursor + j] == rest[j]);
                }
                assert forall|j: int|
                    0 <= j < spec_enc_position(pvs[k]).len() implies bytes@.subrange(
                    cursor as int,
                    cursor + spec_enc_position(pvs[k]).len(),
                )[j] == spec_enc_position(pvs[k])[j] by {
                    assert(bytes@[cursor + j] == rest[j]);
                    assert(rest[j] == spec_enc_position(pvs[k])[j]);
                }
                assert(bytes@.subrange(cursor as int, cursor + spec_enc_position(pvs[k]).len())
                    =~= spec_enc_position(pvs[k]));
                assert(valid_label(pvs[k].ticker));
            }
        }
        match decode_position(&bytes, cursor) {
            None => {
                proof {
                    assert forall|pvs: Seq<PositionV>|
                        !(positions_valid(pvs) && bytes@ == enc_position_list(pvs)) by {
                        if positions_valid(pvs) && bytes@ == enc_position_list(pvs) {
                            assert(position_at(bytes@, cursor as int, pvs[parsed.len() as int]));
                        }
                    }
                }
                return None;
            },
            Some((p, end)) => {
                let ghost pg = p@;
                out.push(p);
                proof {
                    assert(out@.map_values(|pp: Position| pp@) =~= parsed.push(pg));
                    lemma_enc_plist_push(parsed, pg);
                    lemma_subrange_split(bytes@, 0, cursor as int, end as int);
                    assert(bytes@.subrange(0, end as int) =~= enc_position_list(parsed) +
                        spec_enc_position(pg));
                    assert forall|pvs: Seq<PositionV>|
                        (positions_valid(pvs) && bytes@ == enc_position_list(pvs)) implies (
                    out@.len() <= pvs.len() && out@.map_values(|pp: Position| pp@) == pvs.take(
                        out@.len() as int,
                    ) && end == enc_position_list(pvs.take(out@.len() as int)).len()) by {
                        let k = parsed.len() as int;
                        assert(position_at(bytes@, cursor as int, pvs[k]));
                        assert(pg == pvs[k]);
                        assert(end == cursor + spec_enc_position(pvs[k]).len());
                        assert(pvs.take(k + 1) =~= pvs.take(k).push(pvs[k]));
                        lemma_enc_plist_push(pvs.take(k), pvs[k]);
                        assert(parsed.push(pg) =~= pvs.take(k + 1));
                    }
                }
                cursor = end;
            },
        }
    }
    proof {
        assert(bytes@.subrange(0, bytes@.len() as int) =~= bytes@);
        assert(bytes@ == enc_position_list(out@.map_values(|p: Position| p@)));
        assert forall|pvs: Seq<PositionV>|
            (positions_valid(pvs) && bytes@ == enc_position_list(pvs)) implies (out@.map_values(
            |p: Position| p@,
        ) == pvs) by {
            let k = out@.len() as int;
            if k < pvs.len() {
                lemma_enc_plist_decompose(pvs, k);
                let rest = enc_position_list(pvs.skip(k));
                assert(pvs.skip(k)[0] == pvs[k]);
                assert(pvs.skip(k).drop_first() =~= pvs.skip(k + 1));
                assert(rest == spec_enc_position(pvs[k]) + enc_position_list(pvs.skip(k + 1)));
                lemma_enc_fields_split(position_fields(pvs[k]));
                assert(spec_enc_position(pvs[k]).len() >= 1);
                assert(enc_position_list(pvs).len() > cursor);
            }
            assert(k == pvs.len());
            assert(pvs.take(k) =~= pvs);
        }
        assert forall|i: int| 0 <= i < s@.len() implies #[trigger] s@[i] == chars_of_bytes(
            enc_position_list(out@.map_values(|p: Position| p@)),
        )[i] by {
            assert(chars_of_bytes(bytes@)[i] == s@[i]);
        }
        assert(s@ =~= chars_of_bytes(enc_position_list(out@.map_values(|p: Position| p@))));
    }
    Some(out)
}

/// The fields of one instrument, in snapshot order.
pub open spec fn instrument_fields(iv: InstrumentV) -> Seq<FieldV> {
    seq![
        FieldV::Label(iv.ticker),
        FieldV::Label(iv.asset_type),
        FieldV::Label(iv.currency_code),
        FieldV::Num(iv.max_open_quantity),
        FieldV::Num(iv.min_trade_quantity),
    ]
}

/// The snapshot bytes of one instrument.
pub open spec fn spec_enc_instrument(iv: InstrumentV) -> Seq<u8> {
    enc_fields(instrument_fields(iv))
}

/// Whether an instrument's labels may be written at all.
pub open spec fn instrument_valid(iv: InstrumentV) -> bool {
    valid_label(iv.ticker) && valid_label(iv.asset_type) && valid_label(iv.currency_code)
}

/// Whether one instrument's record stands at `start`.
pub open spec fn instrument_at(s: Seq<u8>, start: int, iv: InstrumentV) -> bool {
    &&& instrument_valid(iv)
    &&& 0 <= start
    &&& start + spec_enc_instrument(iv).len() <= s.len()
    &&& s.subrange(start, start + spec_enc_instrument(iv).len()) == spec_enc_instrument(iv)
}

/// The schema of an instrument record.
fn instrument_schema() -> (r: Vec<FieldKind>)
    ensures
        r@ == seq![
            FieldKind::Label,
            FieldKind::Label,
            FieldKind::Label,
            FieldKind::Num,
            FieldKind::Num,
        ],
{
    let mut v: Vec<FieldKind> = Vec::new();
    v.push(FieldKind::Label);
    v.push(FieldKind::Label);
    v.push(FieldKind::Label);
    v.push(FieldKind::Num);
    v.push(FieldKind::Num);
    proof {
        assert(v@ =~= seq![
            FieldKind::Label,
            FieldKind::Label,
            FieldKind::Label,
            FieldKind::Num,
            FieldKind::Num,
        ]);
    }
    v
}

/// Writes one instrument's record.
pub fn encode_instrument(out: &mut Vec<u8>, ins: &Instrument)
    requires
        instrument_valid(ins@),
    ensures
        final(out)@ == old(out)@ + spec_enc_instrument(ins@),
{
    let mut fields: Vec<FieldValue> = Vec::new();
    fields.push(FieldValue::Label(copy_string(&ins.ticker)));
    fields.push(FieldValue::Label(copy_string(&ins.asset_type)));
    fields.push(FieldValue::Label(copy_string(&ins.currency_code)));
    fields.push(FieldValue::Num(ins.max_open_quantity));
    fields.push(FieldValue::Num(ins.min_trade_quantity));
    proof {
        assert(fields@.map_values(|f: FieldValue| f@) =~= instrument_fields(ins@));
    }
    encode_fields(out, &fields);
}

/// Reads one instrument's record; an instrument record standing at
/// `start` always reads back field-equal.
pub fn decode_instrument(s: &Vec<u8>, start: usize) -> (r: Option<(Instrument, usize)>)
    requires
        start <= s@.len(),
        forall|i: int| 0 <= i < s@.len() ==> (#[trigger] s@[i]) < 128,
    ensures
        r matches Some(p) ==> {
            &&& start < p.1 <= s@.len()
            &&& s@.subrange(start as int, p.1 as int) == spec_enc_instrument(p.0@)
            &&& instrument_valid(p.0@)
        },
        forall|iv: InstrumentV|
            instrument_at(s@, start as int, iv) ==> (r matches Some(p) && p.0@ == iv && p.1
                == start + spec_enc_instrument(iv).len()),
{
    let schema = instrument_schema();
    proof {
        assert forall|iv: InstrumentV|
            instrument_at(s@, start as int, iv) implies fields_at(
            s@,
            start as int,
            instrument_fields(iv),
            schema@,
        ) by {
            assert(fields_fit(instrument_fields(iv), schema@));
        }
    }
    let decoded = decode_fields(s, start, &schema);
    match decoded {
        None => {
            proof {
                assert forall|iv: InstrumentV| !instrument_at(s@, start as int, iv) by {
                    if instrument_at(s@, start as int, iv) {
                        assert(fields_at(s@, start as int, instrument_fields(iv), schema@));
                    }
                }
            }
            None
        },
        Some((fields, end)) => {
            let ghost views = fields@.map_values(|f: FieldValue| f@);
            proof {
                assert(views.len() == 5);
                assert(kind_of(views[0]) == FieldKind::Label);
                assert(kind_of(views[1]) == FieldKind::Label);
                assert(kind_of(views[2]) == FieldKind::Label);
                assert(kind_of(views[3]) == FieldKind::Num);
                assert(kind_of(views[4]) == FieldKind::Num);
            }
            let ticker: String = match &fields[0] {
                FieldValue::Label(t) => copy_string(t),
                _ => {
                    proof {
                        assert(views[0] == fields@[0]@);
                        assert(false);
                    }
                    return None;
                },
            };
            let asset_type: String = match &fields[1] {
                FieldValue::Label(t) => copy_string(t),
                _ => {
                    proof {
                        assert(views[1] == fields@[1]@);
                        assert(false);
                    }
                    return None;
                },
            };
            let currency_code: String = match &fields[2] {
                FieldValue::Label(t) => copy_string(t),
                _ => {
                    proof {
                        assert(views[2] == fields@[2]@);
                        assert(false);
                    }
                    return None;
                },
            };
            let max_open_quantity: u64 = match &fields[3] {
                FieldValue::Num(n) => *n,
                _ => {
                    proof {
                        assert(views[3] == fields@[3]@);
                        assert(false);
                    }
                    return None;
                },
            };
            let min_trade_quantity: u64 = match &fields[4] {
                FieldValue::Num(n) => *n,
                _ => {
                    proof {
                        assert(views[4] == fields@[4]@);
                        assert(false);
                    }
                    return None;
                },
            };
            let instrument = Instrument {
                ticker,
                asset_type,
                currency_code,
                max_open_quantity,
                min_trade_quantity,
            };
            proof {
                assert(instrument_fields(instrument@) =~= views);
                assert forall|iv: InstrumentV|
                    instrument_at(s@, start as int, iv) implies (instrument@ == iv && end == start
                    + spec_enc_instrument(iv).len()) by {
                    assert(fields_at(s@, start as int, instrument_fields(iv), schema@));
                    assert(views == instrument_fields(iv));
                    assert(instrument_fields(instrument@)[0] == instrument_fields(iv)[0]);
                    assert(instrument_fields(instrument@)[1] == instrument_fields(iv)[1]);
                    assert(instrument_fields(instrument@)[2] == instrument_fields(iv)[2]);
                    assert(instrument_fields(instrument@)[3] == instrument_fields(iv)[3]);
                    assert(instrument_fields(instrument@)[4] == instrument_fields(iv)[4]);
                }
            }
            Some((instrument, end))
        },
    }
}

/// The snapshot bytes of a whole instrument list.
pub open spec fn enc_instrument_list(ivs: Seq<InstrumentV>) -> Seq<u8>
    decreases ivs.len(),
{
    if ivs.len() == 0 {
        Seq::<u8>::empty()
    } else {
        spec_enc_instrument(ivs[0]) + enc_instrument_list(ivs.drop_first())
    }
}

/// Every instrument in the list has valid labels.
pub open spec fn instruments_valid(ivs: Seq<InstrumentV>) -> bool {
    forall|i: int| 0 <= i < ivs.len() ==> instrument_valid(#[trigger] ivs[i])
}

/// Appending a record extends the list's bytes on the right.
proof fn lemma_enc_ilist_push(ivs: Seq<InstrumentV>, iv: InstrumentV)
    ensures
        enc_instrument_list(ivs.push(iv)) == enc_instrument_list(ivs) + spec_enc_instrument(iv),
    decreases ivs.len(),
{
    if ivs.len() == 0 {
        assert(ivs.push(iv)[0] == iv);
        assert(ivs.push(iv).drop_first() =~= Seq::<InstrumentV>::empty());
        assert(enc_instrument_list(ivs.push(iv)) == spec_enc_instrument(iv) + enc_instrument_list(
            Seq::<InstrumentV>::empty(),
        ));
        assert(spec_enc_instrument(iv) + enc_instrument_list(Seq::<InstrumentV>::empty())
            =~= enc_instrument_list(ivs) + spec_enc_instrument(iv));
    } else {
        assert(ivs.push(iv)[0] == ivs[0]);
        assert(ivs.push(iv).drop_first() =~= ivs.drop_first().push(iv));
        lemma_enc_ilist_push(ivs.drop_first(), iv);
        assert(spec_enc_instrument(ivs[0]) + (enc_instrument_list(ivs.drop_first())
            + spec_enc_instrument(iv)) =~= (spec_enc_instrument(ivs[0]) + enc_instrument_list(
            ivs.drop_first(),
        )) + spec_enc_instrument(iv));
    }
}

/// An instrument list's bytes are ASCII.
proof fn lemma_enc_ilist_ascii(ivs: Seq<InstrumentV>)
    requires
        instruments_valid(ivs),
    ensures
        forall|i: int|
            0 <= i < enc_instrument_list(ivs).len() ==> (#[trigger] enc_instrument_list(ivs)[i])
                < 128,
    decreases ivs.len(),
{
    if ivs.len() > 0 {
        assert(instruments_valid(ivs.drop_first())) by {
            assert(forall|i: int|
                0 <= i < ivs.drop_first().len() ==> (#[trigger] ivs.drop_first()[i]) == ivs[i
                    + 1]);
        }
        lemma_enc_ilist_ascii(ivs.drop_first());
        assert(instrument_valid(ivs[0]));
        lemma_enc_fields_ascii(instrument_fields(ivs[0]));
        assert forall|i: int|
            0 <= i < enc_instrument_list(ivs).len() implies (#[trigger] enc_instrument_list(
            ivs,
        )[i]) < 128 by {
            let a = spec_enc_instrument(ivs[0]);
            let rest = enc_instrument_list(ivs.drop_first());
            if i < a.len() {
                assert(enc_instrument_list(ivs)[i] == a[i]);
            } else {
                assert(enc_instrument_list(ivs)[i] == rest[i - a.len()]);
            }
        }
    }
}

/// Writes a whole instrument list as snapshot text.
pub fn encode_instruments(ins: &Vec<Instrument>) -> (r: String)
    requires
        forall|i: int| 0 <= i < ins@.len() ==> instrument_valid((#[trigger] ins@[i])@),
    ensures
        r@ == chars_of_bytes(enc_instrument_list(ins@.map_values(|p: Instrument| p@))),
{
    let ghost views = ins@.map_values(|p: Instrument| p@);
    let mut bytes: Vec<u8> = Vec::new();
    let mut i: usize = 0;
    proof {
        assert(bytes@ =~= enc_instrument_list(views.take(0)));
    }
    while i < ins.len()
        invariant
            i <= ins@.len(),
            views == ins@.map_values(|p: Instrument| p@),
            forall|k: int| 0 <= k < ins@.len() ==> instrument_valid((#[trigger] ins@[k])@),
            bytes@ == enc_instrument_list(views.take(i as int)),
        decreases ins@.len() - i,
    {
        encode_instrument(&mut bytes, &ins[i]);
        proof {
            lemma_enc_ilist_push(views.take(i as int), views[i as int]);
            assert(views.take(i + 1) =~= views.take(i as int).push(views[i as int]));
        }
        i = i + 1;
    }
    proof {
        assert(views.take(views.len() as int) =~= views);
        assert(instruments_valid(views)) by {
            assert(forall|k: int| 0 <= k < views.len() ==> views[k] == ins@[k]@);
        }
        lemma_enc_ilist_ascii(views);
    }
    string_from_ascii(bytes)
}

/// A list's bytes split at any record boundary.
proof fn lemma_enc_ilist_decompose(ivs: Seq<InstrumentV>, k: int)
    requires
        0 <= k <= ivs.len(),
    ensures
        enc_instrument_list(ivs) == enc_instrument_list(ivs.take(k)) + enc_instrument_list(
            ivs.skip(k),
        ),
    decreases k,
{
    if k == 0 {
        assert(ivs.take(0).len() == 0);
        assert(ivs.skip(0) =~= ivs);
        assert(enc_instrument_list(ivs) =~= enc_instrument_list(ivs.take(0))
            + enc_instrument_list(ivs));
    } else {
        lemma_enc_ilist_decompose(ivs, k - 1);
        let prev = ivs.skip(k - 1);
        assert(prev[0] == ivs[k - 1]);
        assert(prev.drop_first() =~= ivs.skip(k));
        assert(enc_instrument_list(prev) == spec_enc_instrument(ivs[k - 1])
            + enc_instrument_list(ivs.skip(k)));
        assert(ivs.take(k) =~= ivs.take(k - 1).push(ivs[k - 1]));
        lemma_enc_ilist_push(ivs.take(k - 1), ivs[k - 1]);
        assert(enc_instrument_list(ivs.take(k - 1)) + (spec_enc_instrument(ivs[k - 1])
            + enc_instrument_list(ivs.skip(k))) =~= (enc_instrument_list(ivs.take(k - 1))
            + spec_enc_instrument(ivs[k - 1])) + enc_instrument_list(ivs.skip(k)));
    }
}

/// Reads a whole instrument list back from snapshot text; text written
/// by [`encode_instruments`] always reads back, field for field.
pub fn decode_instruments(s: &str) -> (r: Option<Vec<Instrument>>)
    ensures
        r matches Some(ins) ==> s@ == chars_of_bytes(
            enc_instrument_list(ins@.map_values(|p: Instrument| p@)),
        ),
        forall|ivs: Seq<InstrumentV>|
            (instruments_valid(ivs) && s@ == chars_of_bytes(enc_instrument_list(ivs))) ==> (r
                matches Some(ins) && ins@.map_values(|p: Instrument| p@) == ivs),
{
    broadcast use vstd::string::is_ascii_spec_bytes;

    if !s.is_ascii() {
        proof {
            assert forall|ivs: Seq<InstrumentV>|
                !(instruments_valid(ivs) && s@ == chars_of_bytes(enc_instrument_list(ivs))) by {
                if instruments_valid(ivs) && s@ == chars_of_bytes(enc_instrument_list(ivs)) {
                    lemma_enc_ilist_ascii(ivs);
                    assert forall|i: int| 0 <= i < s@.len() implies '\0' <= #[trigger] s@[i]
                        <= '\u{7f}' by {
                        let e = enc_instrument_list(ivs);
                        assert(s@[i] == e[i] as char);
                        lemma_byte_char_byte(e[i]);
                        crate::text::lemma_label_char_ascii(s@[i]);
                    }
                    assert(vstd::utf8::is_ascii_chars(s@));
                }
            }
        }
        return None;
    }
    let bytes: Vec<u8> = s.as_bytes_vec();
    proof {
        assert(bytes@ =~= s@.map_values(|c: char| c as u8));
        vstd::utf8::is_ascii_chars_nat_bound(s@);
        assert forall|i: int| 0 <= i < bytes@.len() implies (#[trigger] bytes@[i]) < 128 by {
            assert(bytes@[i] == s@[i] as u8);
            assert((s@[i] as nat) < 128);
            crate::text::lemma_ascii_char_to_byte(s@[i]);
        }
        lemma_bytes_chars(bytes@);
        assert forall|i: int| 0 <= i < s@.len() implies #[trigger] chars_of_bytes(bytes@)[i]
            == s@[i] by {
            assert((s@[i] as nat) < 128);
            crate::text::lemma_ascii_char_to_byte(s@[i]);
            vstd::utf8::char_u32_cast(s@[i], s@[i] as u32);
        }
        assert(chars_of_bytes(bytes@) =~= s@);
        assert forall|ivs: Seq<InstrumentV>|
            (instruments_valid(ivs) && s@ == chars_of_bytes(enc_instrument_list(ivs)))
                implies bytes@ == enc_instrument_list(ivs) by {
            lemma_enc_ilist_ascii(ivs);
            lemma_bytes_chars(enc_instrument_list(ivs));
            assert(label_bytes(chars_of_bytes(bytes@)) == bytes@);
            assert(label_bytes(chars_of_bytes(enc_instrument_list(ivs))) == enc_instrument_list(
                ivs,
            ));
        }
    }
    let mut out: Vec<Instrument> = Vec::new();
    let mut cursor: usize = 0;
    proof {
        assert(out@.map_values(|p: Instrument| p@) =~= Seq::<InstrumentV>::empty());
        assert(bytes@.subrange(0, 0) =~= enc_instrument_list(Seq::<InstrumentV>::empty()));
    }
    while cursor < bytes.len()
        invariant
            cursor <= bytes@.len(),
            forall|i: int| 0 <= i < bytes@.len() ==> (#[trigger] bytes@[i]) < 128,
            chars_of_bytes(bytes@) == s@,
            forall|ivs: Seq<InstrumentV>|
                (instruments_valid(ivs) && s@ == chars_of_bytes(enc_instrument_list(ivs)))
                    ==> bytes@ == enc_instrument_list(ivs),
            bytes@.subrange(0, cursor as int) == enc_instrument_list(
                out@.map_values(|p: Instrument| p@),
            ),
            forall|i: int| 0 <= i < out@.len() ==> instrument_valid((#[trigger] out@[i])@),
            forall|ivs: Seq<InstrumentV>|
                (instruments_valid(ivs) && bytes@ == enc_instrument_list(ivs)) ==> (out@.len()
                    <= ivs.len() && out@.map_values(|p: Instrument| p@) == ivs.take(
                    out@.len() as int,
                ) && cursor == enc_instrument_list(ivs.take(out@.len() as int)).len()),
        decreases bytes@.len() - cursor,
    {
        let ghost parsed = out@.map_values(|p: Instrument| p@);
        proof {
            assert forall|ivs: Seq<InstrumentV>|
                (instruments_valid(ivs) && bytes@ == enc_instrument_list(ivs)) implies (
            parsed.len() < ivs.len() && instrument_at(
                bytes@,
                cursor as int,
                ivs[parsed.len() as int],
            )) by {
                let k = parsed.len() as int;
                lemma_enc_ilist_decompose(ivs, k);
                if k == ivs.len() {
                    assert(ivs.take(k) =~= ivs);
                    assert(cursor == enc_instrument_list(ivs).len());
                }
                assert(k < ivs.len());
                let rest = enc_instrument_list(ivs.skip(k));
                assert(ivs.skip(k)[0] == ivs[k]);
                assert(ivs.skip(k).drop_first() =~= ivs.skip(k + 1));
                assert(rest == spec_enc_instrument(ivs[k]) + enc_instrument_list(ivs.skip(k + 1)));
                assert forall|j: int| 0 <= j < rest.len() implies bytes@[cursor + j] == rest[j]
                    by {
                    assert(enc_instrument_list(ivs)[cursor + j] == rest[j]);
                }
                assert forall|j: int|
                    0 <= j < spec_enc_instrument(ivs[k]).len() implies bytes@.subrange(
                    cursor as int,
                    cursor + spec_enc_instrument(ivs[k]).len(),
                )[j] == spec_enc_instrument(ivs[k])[j] by {
                    assert(bytes@[cursor + j] == rest[j]);
                    assert(rest[j] == spec_enc_instrument(ivs[k])[j]);
                }
                assert(bytes@.subrange(cursor as int, cursor + spec_enc_instrument(ivs[k]).len())
                    =~= spec_enc_instrument(ivs[k]));
                assert(instrument_valid(ivs[k]));
            }
        }
        match decode_instrument(&bytes, cursor) {
            None => {
                proof {
                    assert forall|ivs: Seq<InstrumentV>|
                        !(instruments_valid(ivs) && bytes@ == enc_instrument_list(ivs)) by {
                        if instruments_valid(ivs) && bytes@ == enc_instrument_list(ivs) {
                            assert(instrument_at(
                                bytes@,
                                cursor as int,
                                ivs[parsed.len() as int],
                            ));
                        }
                    }
                }
                return None;
            },
            Some((p, end)) => {
                let ghost pg = p@;
                out.push(p);
                proof {
                    assert(out@.map_values(|pp: Instrument| pp@) =~= parsed.push(pg));
                    lemma_enc_ilist_push(parsed, pg);
                    lemma_subrange_split(bytes@, 0, cursor as int, end as int);
                    assert(bytes@.subrange(0, end as int) =~= enc_instrument_list(parsed)
                        + spec_enc_instrument(pg));
                    assert forall|ivs: Seq<InstrumentV>|
                        (instruments_valid(ivs) && bytes@ == enc_instrument_list(ivs)) implies (
                    out@.len() <= ivs.len() && out@.map_values(|pp: Instrument| pp@) == ivs.take(
                        out@.len() as int,
                    ) && end == enc_instrument_list(ivs.take(out@.len() as int)).len()) by {
                        let k = parsed.len() as int;
                        assert(instrument_at(bytes@, cursor as int, ivs[k]));
                        assert(pg == ivs[k]);
                        assert(end == cursor + spec_enc_instrument(ivs[k]).len());
                        assert(ivs.take(k + 1) =~= ivs.take(k).push(ivs[k]));
                        lemma_enc_ilist_push(ivs.take(k), ivs[k]);
                        assert(parsed.push(pg) =~= ivs.take(k + 1));
                    }
                }
                cursor = end;
            },
        }
    }
    proof {
        assert(bytes@.subrange(0, bytes@.len() as int) =~= bytes@);
        assert(bytes@ == enc_instrument_list(out@.map_values(|p: Instrument| p@)));
        assert forall|ivs: Seq<InstrumentV>|
            (instruments_valid(ivs) && bytes@ == enc_instrument_list(ivs)) implies (
        out@.map_values(|p: Instrument| p@) == ivs) by {
            let k = out@.len() as int;
            if k < ivs.len() {
                lemma_enc_ilist_decompose(ivs, k);
                let rest = enc_instrument_list(ivs.skip(k));
                assert(ivs.skip(k)[0] == ivs[k]);
                assert(ivs.skip(k).drop_first() =~= ivs.skip(k + 1));
                assert(rest == spec_enc_instrument(ivs[k]) + enc_instrument_list(ivs.skip(k + 1)));
                lemma_enc_fields_split(instrument_fields(ivs[k]));
                assert(spec_enc_instrument(ivs[k]).len() >= 1);
                assert(enc_instrument_list(ivs).len() > cursor);
            }
            assert(k == ivs.len());
            assert(ivs.take(k) =~= ivs);
        }
        assert forall|i: int| 0 <= i < s@.len() implies #[trigger] s@[i] == chars_of_bytes(
            enc_instrument_list(out@.map_values(|p: Instrument| p@)),
        )[i] by {
            assert(chars_of_bytes(bytes@)[i] == s@[i]);
        }
        assert(s@ =~= chars_of_bytes(enc_instrument_list(out@.map_values(|p: Instrument| p@))));
    }
    Some(out)
}

/// The fields of one working order, in snapshot order.
pub open spec fn order_fields(ov: LimitOrderV) -> Seq<FieldV> {
    seq![
        FieldV::Num(ov.id),
        FieldV::Label(ov.ticker),
        FieldV::Snum(ov.quantity),
        FieldV::OptNum(ov.limit_price),
        FieldV::Label(ov.status),
    ]
}

/// The snapshot bytes of one working order.
pub open spec fn spec_enc_order(ov: LimitOrderV) -> Seq<u8> {
    enc_fields(order_fields(ov))
}

/// Whether an order's labels may be written at all.
pub open spec fn order_valid(ov: LimitOrderV) -> bool {
    valid_label(ov.ticker) && valid_label(ov.status)
}

/// Whether one order's record stands at `start`.
pub open spec fn order_at(s: Seq<u8>, start: int, ov: LimitOrderV) -> bool {
    &&& order_valid(ov)
    &&& 0 <= start
    &&& start + spec_enc_order(ov).len() <= s.len()
    &&& s.subrange(start, start + spec_enc_order(ov).len()) == spec_enc_order(ov)
}

/// The schema of an order record.
fn order_schema() -> (r: Vec<FieldKind>)
    ensures
        r@ == seq![
            FieldKind::Num,
            FieldKind::Label,
            FieldKind::Snum,
            FieldKind::OptNum,
            FieldKind::Label,
        ],
{
    let mut v: Vec<FieldKind> = Vec::new();
    v.push(FieldKind::Num);
    v.push(FieldKind::Label);
    v.push(FieldKind::Snum);
    v.push(FieldKind::OptNum);
    v.push(FieldKind::Label);
    proof {
        assert(v@ =~= seq![
            FieldKind::Num,
            FieldKind::Label,
            FieldKind::Snum,
            FieldKind::OptNum,
            FieldKind::Label,
        ]);
    }
    v
}

/// Writes one working order's record.
pub fn encode_order(out: &mut Vec<u8>, o: &LimitOrder)
    requires
        order_valid(o@),
    ensures
        final(out)@ == old(out)@ + spec_enc_order(o@),
{
    let mut fields: Vec<FieldValue> = Vec::new();
    fields.push(FieldValue::Num(o.id));
    fields.push(FieldValue::Label(copy_string(&o.ticker)));
    fields.push(FieldValue::Snum(o.quantity));
    fields.push(FieldValue::OptNum(o.limit_price));
    fields.push(FieldValue::Label(copy_string(&o.status)));
    proof {
        assert(fields@.map_values(|f: FieldValue| f@) =~= order_fields(o@));
    }
    encode_fields(out, &fields);
}

/// Reads one working order's record; an order record standing at
/// `start` always reads back field-equal.
pub fn decode_order(s: &Vec<u8>, start: usize) -> (r: Option<(LimitOrder, usize)>)
    requires
        start <= s@.len(),
        forall|i: int| 0 <= i < s@.len() ==> (#[trigger] s@[i]) < 128,
    ensures
        r matches Some(p) ==> {
            &&& start < p.1 <= s@.len()
            &&& s@.subrange(start as int, p.1 as int) == spec_enc_order(p.0@)
            &&& order_valid(p.0@)
        },
        forall|ov: LimitOrderV|
            order_at(s@, start as int, ov) ==> (r matches Some(p) && p.0@ == ov && p.1 == start
                + spec_enc_order(ov).len()),
{
    let schema = order_schema();
    proof {
        assert forall|ov: LimitOrderV|
            order_at(s@, start as int, ov) implies fields_at(
            s@,
            start as int,
            order_fields(ov),
            schema@,
        ) by {
            assert(fields_fit(order_fields(ov), schema@));
        }
    }
    let decoded = decode_fields(s, start, &schema);
    match decoded {
        None => {
            proof {
                assert forall|ov: LimitOrderV| !order_at(s@, start as int, ov) by {
                    if order_at(s@, start as int, ov) {
                        assert(fields_at(s@, start as int, order_fields(ov), schema@));
                    }
                }
            }
            None
        },
        Some((fields, end)) => {
            let ghost views = fields@.map_values(|f: FieldValue| f@);
            proof {
                assert(views.len() == 5);
                assert(kind_of(views[0]) == FieldKind::Num);
                assert(kind_of(views[1]) == FieldKind::Label);
                assert(kind_of(views[2]) == FieldKind::Snum);
                assert(kind_of(views[3]) == FieldKind::OptNum);
                assert(kind_of(views[4]) == FieldKind::Label);
            }
            let id: u64 = match &fields[0] {
                FieldValue::Num(n) => *n,
                _ => {
                    proof {
                        assert(views[0] == fields@[0]@);
                        assert(false);
                    }
                    return None;
                },
            };
            let ticker: String = match &fields[1] {
                FieldValue::Label(t) => copy_string(t),
                _ => {
                    proof {
                        assert(views[1] == fields@[1]@);
                        assert(false);
                    }
                    return None;
                },
            };
            let quantity: i64 = match &fields[2] {
                FieldValue::Snum(v) => *v,
                _ => {
                    proof {
                        assert(views[2] == fields@[2]@);
                        assert(false);
                    }
                    return None;
                },
            };
            let limit_price: Option<u64> = match &fields[3] {
                FieldValue::OptNum(o) => *o,
                _ => {
                    proof {
                        assert(views[3] == fields@[3]@);
                        assert(false);
                    }
                    return None;
                },
            };
            let status: String = match &fields[4] {
                FieldValue::Label(t) => copy_string(t),
                _ => {
                    proof {
                        assert(views[4] == fields@[4]@);
                        assert(false);
                    }
                    return None;
                },
            };
            let order = LimitOrder { id, ticker, quantity, limit_price, status };
            proof {
                assert(order_fields(order@) =~= views);
                assert forall|ov: LimitOrderV|
                    order_at(s@, start as int, ov) implies (order@ == ov && end == start
                    + spec_enc_order(ov).len()) by {
                    assert(fields_at(s@, start as int, order_fields(ov), schema@));
                    assert(views == order_fields(ov));
                    assert(order_fields(order@)[0] == order_fields(ov)[0]);
                    assert(order_fields(order@)[1] == order_fields(ov)[1]);
                    assert(order_fields(order@)[2] == order_fields(ov)[2]);
                    assert(order_fields(order@)[3] == order_fields(ov)[3]);
                    assert(order_fields(order@)[4] == order_fields(ov)[4]);
                }
            }
            Some((order, end))
        },
    }
}

/// The snapshot bytes of a whole order list.
pub open spec fn enc_order_list(ovs: Seq<LimitOrderV>) -> Seq<u8>
    decreases ovs.len(),
{
    if ovs.len() == 0 {
        Seq::<u8>::empty()
    } else {
        spec_enc_order(ovs[0]) + enc_order_list(ovs.drop_first())
    }
}

/// Every order in the list has valid labels.
pub open spec fn orders_valid(ovs: Seq<LimitOrderV>) -> bool {
    forall|i: int| 0 <= i < ovs.len() ==> order_valid(#[trigger] ovs[i])
}

/// Appending a record extends the list's bytes on the right.
proof fn lemma_enc_olist_push(ovs: Seq<LimitOrderV>, ov: LimitOrderV)
    ensures
        enc_order_list(ovs.push(ov)) == enc_order_list(ovs) + spec_enc_order(ov),
    decreases ovs.len(),
{
    if ovs.len() == 0 {
        assert(ovs.push(ov)[0] == ov);
        assert(ovs.push(ov).drop_first() =~= Seq::<LimitOrderV>::empty());
        assert(enc_order_list(ovs.push(ov)) == spec_enc_order(ov) + enc_order_list(
            Seq::<LimitOrderV>::empty(),
        ));
        assert(spec_enc_order(ov) + enc_order_list(Seq::<LimitOrderV>::empty()) =~= enc_order_list(
            ovs,
        ) + spec_enc_order(ov));
    } else {
        assert(ovs.push(ov)[0] == ovs[0]);
        assert(ovs.push(ov).drop_first() =~= ovs.drop_first().push(ov));
        lemma_enc_olist_push(ovs.drop_first(), ov);
        assert(spec_enc_order(ovs[0]) + (enc_order_list(ovs.drop_first()) + spec_enc_order(ov))
            =~= (spec_enc_order(ovs[0]) + enc_order_list(ovs.drop_first())) + spec_enc_order(ov));
    }
}

/// An order list's bytes are ASCII.
proof fn lemma_enc_olist_ascii(ovs: Seq<LimitOrderV>)
    requires
        orders_valid(ovs),
    ensures
        forall|i: int|
            0 <= i < enc_order_list(ovs).len() ==> (#[trigger] enc_order_list(ovs)[i]) < 128,
    decreases ovs.len(),
{
    if ovs.len() > 0 {
        assert(orders_valid(ovs.drop_first())) by {
            assert(forall|i: int|
                0 <= i < ovs.drop_first().len() ==> (#[trigger] ovs.drop_first()[i]) == ovs[i
                    + 1]);
        }
        lemma_enc_olist_ascii(ovs.drop_first());
        assert(order_valid(ovs[0]));
        lemma_enc_fields_ascii(order_fields(ovs[0]));
        assert forall|i: int|
            0 <= i < enc_order_list(ovs).len() implies (#[trigger] enc_order_list(ovs)[i]) < 128
            by {
            let a = spec_enc_order(ovs[0]);
            let rest = enc_order_list(ovs.drop_first());
            if i < a.len() {
                assert(enc_order_list(ovs)[i] == a[i]);
            } else {
                assert(enc_order_list(ovs)[i] == rest[i - a.len()]);
            }
        }
    }
}

/// Writes a whole order list as snapshot text.
pub fn encode_orders(os: &Vec<LimitOrder>) -> (r: String)
    requires
        forall|i: int| 0 <= i < os@.len() ==> order_valid((#[trigger] os@[i])@),
    ensures
        r@ == chars_of_bytes(enc_order_list(os@.map_values(|p: LimitOrder| p@))),
{
    let ghost views = os@.map_values(|p: LimitOrder| p@);
    let mut bytes: Vec<u8> = Vec::new();
    let mut i: usize = 0;
    proof {
        assert(bytes@ =~= enc_order_list(views.take(0)));
    }
    while i < os.len()
        invariant
            i <= os@.len(),
            views == os@.map_values(|p: LimitOrder| p@),
            forall|k: int| 0 <= k < os@.len() ==> order_valid((#[trigger] os@[k])@),
            bytes@ == enc_order_list(views.take(i as int)),
        decreases os@.len() - i,
    {
        encode_order(&mut bytes, &os[i]);
        proof {
            lemma_enc_olist_push(views.take(i as int), views[i as int]);
            assert(views.take(i + 1) =~= views.take(i as int).push(views[i as int]));
        }
        i = i + 1;
    }
    proof {
        assert(views.take(views.len() as int) =~= views);
        assert(orders_valid(views)) by {
            assert(forall|k: int| 0 <= k < views.len() ==> views[k] == os@[k]@);
        }
        lemma_enc_olist_ascii(views);
    }
    string_from_ascii(bytes)
}

/// A list's bytes split at any record boundary.
proof fn lemma_enc_olist_decompose(ovs: Seq<LimitOrderV>, k: int)
    requires
        0 <= k <= ovs.len(),
    ensures
        enc_order_list(ovs) == enc_order_list(ovs.take(k)) + enc_order_list(ovs.skip(k)),
    decreases k,
{
    if k == 0 {
        assert(ovs.take(0).len() == 0);
        assert(ovs.skip(0) =~= ovs);
        assert(enc_order_list(ovs) =~= enc_order_list(ovs.take(0)) + enc_order_list(ovs));
    } else {
        lemma_enc_olist_decompose(ovs, k - 1);
        let prev = ovs.skip(k - 1);
        assert(prev[0] == ovs[k - 1]);
        assert(prev.drop_first() =~= ovs.skip(k));
        assert(enc_order_list(prev) == spec_enc_order(ovs[k - 1]) + enc_order_list(ovs.skip(k)));
        assert(ovs.take(k) =~= ovs.take(k - 1).push(ovs[k - 1]));
        lemma_enc_olist_push(ovs.take(k - 1), ovs[k - 1]);
        assert(enc_order_list(ovs.take(k - 1)) + (spec_enc_order(ovs[k - 1]) + enc_order_list(
            ovs.skip(k),
        )) =~= (enc_order_list(ovs.take(k - 1)) + spec_enc_order(ovs[k - 1])) + enc_order_list(
            ovs.skip(k),
        ));
    }
}

/// Reads a whole order list back from snapshot text; text written by
/// [`encode_orders`] always reads back, field for field.
pub fn decode_orders(s: &str) -> (r: Option<Vec<LimitOrder>>)
    ensures
        r matches Some(os) ==> s@ == chars_of_bytes(
            enc_order_list(os@.map_values(|p: LimitOrder| p@)),
        ),
        forall|ovs: Seq<LimitOrderV>|
            (orders_valid(ovs) && s@ == chars_of_bytes(enc_order_list(ovs))) ==> (r matches Some(
                os,
            ) && os@.map_values(|p: LimitOrder| p@) == ovs),
{
    broadcast use vstd::string::is_ascii_spec_bytes;

    if !s.is_ascii() {
        proof {
            assert forall|ovs: Seq<LimitOrderV>|
                !(orders_valid(ovs) && s@ == chars_of_bytes(enc_order_list(ovs))) by {
                if orders_valid(ovs) && s@ == chars_of_bytes(enc_order_list(ovs)) {
                    lemma_enc_olist_ascii(ovs);
                    assert forall|i: int| 0 <= i < s@.len() implies '\0' <= #[trigger] s@[i]
                        <= '\u{7f}' by {
                        let e = enc_order_list(ovs);
                        assert(s@[i] == e[i] as char);
                        lemma_byte_char_byte(e[i]);
                        crate::text::lemma_label_char_ascii(s@[i]);
                    }
                    assert(vstd::utf8::is_ascii_chars(s@));
                }
            }
        }
        return None;
    }
    let bytes: Vec<u8> = s.as_bytes_vec();
    proof {
        assert(bytes@ =~= s@.map_values(|c: char| c as u8));
        vstd::utf8::is_ascii_chars_nat_bound(s@);
        assert forall|i: int| 0 <= i < bytes@.len() implies (#[trigger] bytes@[i]) < 128 by {
            assert(bytes@[i] == s@[i] as u8);
            assert((s@[i] as nat) < 128);
            crate::text::lemma_ascii_char_to_byte(s@[i]);
        }
        lemma_bytes_chars(bytes@);
        assert forall|i: int| 0 <= i < s@.len() implies #[trigger] chars_of_bytes(bytes@)[i]
            == s@[i] by {
            assert((s@[i] as nat) < 128);
            crate::text::lemma_ascii_char_to_byte(s@[i]);
            vstd::utf8::char_u32_cast(s@[i], s@[i] as u32);
        }
        assert(chars_of_bytes(bytes@) =~= s@);
        assert forall|ovs: Seq<LimitOrderV>|
            (orders_valid(ovs) && s@ == chars_of_bytes(enc_order_list(ovs))) implies bytes@
            == enc_order_list(ovs) by {
            lemma_enc_olist_ascii(ovs);
            lemma_bytes_chars(enc_order_list(ovs));
            assert(label_bytes(chars_of_bytes(bytes@)) == bytes@);
            assert(label_bytes(chars_of_bytes(enc_order_list(ovs))) == enc_order_list(ovs));
        }
    }
    let mut out: Vec<LimitOrder> = Vec::new();
    let mut cursor: usize = 0;
    proof {
        assert(out@.map_values(|p: LimitOrder| p@) =~= Seq::<LimitOrderV>::empty());
        assert(bytes@.subrange(0, 0) =~= enc_order_list(Seq::<LimitOrderV>::empty()));
    }
    while cursor < bytes.len()
        invariant
            cursor <= bytes@.len(),
            forall|i: int| 0 <= i < bytes@.len() ==> (#[trigger] bytes@[i]) < 128,
            chars_of_bytes(bytes@) == s@,
            forall|ovs: Seq<LimitOrderV>|
                (orders_valid(ovs) && s@ == chars_of_bytes(enc_order_list(ovs))) ==> bytes@
                    == enc_order_list(ovs),
            bytes@.subrange(0, cursor as int) == enc_order_list(
                out@.map_values(|p: LimitOrder| p@),
            ),
            forall|i: int| 0 <= i < out@.len() ==> order_valid((#[trigger] out@[i])@),
            forall|ovs: Seq<LimitOrderV>|
                (orders_valid(ovs) && bytes@ == enc_order_list(ovs)) ==> (out@.len() <= ovs.len()
                    && out@.map_values(|p: LimitOrder| p@) == ovs.take(out@.len() as int) && cursor
                    == enc_order_list(ovs.take(out@.len() as int)).len()),
        decreases bytes@.len() - cursor,
    {
        let ghost parsed = out@.map_values(|p: LimitOrder| p@);
        proof {
            assert forall|ovs: Seq<LimitOrderV>|
                (orders_valid(ovs) && bytes@ == enc_order_list(ovs)) implies (parsed.len()
                < ovs.len() && order_at(bytes@, cursor as int, ovs[parsed.len() as int])) by {
                let k = parsed.len() as int;
                lemma_enc_olist_decompose(ovs, k);
                if k == ovs.len() {
                    assert(ovs.take(k) =~= ovs);
                    assert(cursor == enc_order_list(ovs).len());
                }
                assert(k < ovs.len());
                let rest = enc_order_list(ovs.skip(k));
                assert(ovs.skip(k)[0] == ovs[k]);
                assert(ovs.skip(k).drop_first() =~= ovs.skip(k + 1));
                assert(rest == spec_enc_order(ovs[k]) + enc_order_list(ovs.skip(k + 1)));
                assert forall|j: int| 0 <= j < rest.len() implies bytes@[cursor + j] == rest[j]
                    by {
                    assert(enc_order_list(ovs)[cursor + j] == rest[j]);
                }
                assert forall|j: int|
                    0 <= j < spec_enc_order(ovs[k]).len() implies bytes@.subrange(
                    cursor as int,
                    cursor + spec_enc_order(ovs[k]).len(),
                )[j] == spec_enc_order(ovs[k])[j] by {
                    assert(bytes@[cursor + j] == rest[j]);
                    assert(rest[j] == spec_enc_order(ovs[k])[j]);
                }
                assert(bytes@.subrange(cursor as int, cursor + spec_enc_order(ovs[k]).len())
                    =~= spec_enc_order(ovs[k]));
                assert(order_valid(ovs[k]));
            }
        }
        match decode_order(&bytes, cursor) {
            None => {
                proof {
                    assert forall|ovs: Seq<LimitOrderV>|
                        !(orders_valid(ovs) && bytes@ == enc_order_list(ovs)) by {
                        if orders_valid(ovs) && bytes@ == enc_order_list(ovs) {
                            assert(order_at(bytes@, cursor as int, ovs[parsed.len() as int]));
                        }
                    }
                }
                return None;
            },
            Some((p, end)) => {
                let ghost pg = p@;
                out.push(p);
                proof {
                    assert(out@.map_values(|pp: LimitOrder| pp@) =~= parsed.push(pg));
                    lemma_enc_olist_push(parsed, pg);
                    lemma_subrange_split(bytes@, 0, cursor as int, end as int);
                    assert(bytes@.subrange(0, end as int) =~= enc_order_list(parsed)
                        + spec_enc_order(pg));
                    assert forall|ovs: Seq<LimitOrderV>|
                        (orders_valid(ovs) && bytes@ == enc_order_list(ovs)) implies (out@.len()
                        <= ovs.len() && out@.map_values(|pp: LimitOrder| pp@) == ovs.take(
                        out@.len() as int,
                    ) && end == enc_order_list(ovs.take(out@.len() as int)).len()) by {
                        let k = parsed.len() as int;
                        assert(order_at(bytes@, cursor as int, ovs[k]));
                        assert(pg == ovs[k]);
                        assert(end == cursor + spec_enc_order(ovs[k]).len());
                        assert(ovs.take(k + 1) =~= ovs.take(k).push(ovs[k]));
                        lemma_enc_olist_push(ovs.take(k), ovs[k]);
                        assert(parsed.push(pg) =~= ovs.take(k + 1));
                    }
                }
                cursor = end;
            },
        }
    }
    proof {
        assert(bytes@.subrange(0, bytes@.len() as int) =~= bytes@);
        assert(bytes@ == enc_order_list(out@.map_values(|p: LimitOrder| p@)));
        assert forall|ovs: Seq<LimitOrderV>|
            (orders_valid(ovs) && bytes@ == enc_order_list(ovs)) implies (out@.map_values(
            |p: LimitOrder| p@,
        ) == ovs) by {
            let k = out@.len() as int;
            if k < ovs.len() {
                lemma_enc_olist_decompose(ovs, k);
                let rest = enc_order_list(ovs.skip(k));
                assert(ovs.skip(k)[0] == ovs[k]);
                assert(ovs.skip(k).drop_first() =~= ovs.skip(k + 1));
                assert(rest == spec_enc_order(ovs[k]) + enc_order_list(ovs.skip(k + 1)));
                lemma_enc_fields_split(order_fields(ovs[k]));
                assert(spec_enc_order(ovs[k]).len() >= 1);
                assert(enc_order_list(ovs).len() > cursor);
            }
            assert(k == ovs.len());
            assert(ovs.take(k) =~= ovs);
        }
        assert forall|i: int| 0 <= i < s@.len() implies #[trigger] s@[i] == chars_of_bytes(
            enc_order_list(out@.map_values(|p: LimitOrder| p@)),
        )[i] by {
            assert(chars_of_bytes(bytes@)[i] == s@[i]);
        }
        assert(s@ =~= chars_of_bytes(enc_order_list(out@.map_values(|p: LimitOrder| p@))));
    }
    Some(out)
}

/// The fields of the balance, in snapshot order.
pub open spec fn balance_fields(bv: BalanceV) -> Seq<FieldV> {
    seq![
        FieldV::OptNum(bv.blocked),
        FieldV::Num(bv.free),
        FieldV::Num(bv.invested),
        FieldV::Num(bv.pie_cash),
        FieldV::Snum(bv.ppl),
        FieldV::Snum(bv.result),
        FieldV::Num(bv.total),
    ]
}

/// The snapshot bytes of the balance.
pub open spec fn spec_enc_balance(bv: BalanceV) -> Seq<u8> {
    enc_fields(balance_fields(bv))
}

/// The schema of the balance record.
fn balance_schema() -> (r: Vec<FieldKind>)
    ensures
        r@ == seq![
            FieldKind::OptNum,
            FieldKind::Num,
            FieldKind::Num,
            FieldKind::Num,
            FieldKind::Snum,
            FieldKind::Snum,
            FieldKind::Num,
        ],
{
    let mut v: Vec<FieldKind> = Vec::new();
    v.push(FieldKind::OptNum);
    v.push(FieldKind::Num);
    v.push(FieldKind::Num);
    v.push(FieldKind::Num);
    v.push(FieldKind::Snum);
    v.push(FieldKind::Snum);
    v.push(FieldKind::Num);
    proof {
        assert(v@ =~= seq![
            FieldKind::OptNum,
            FieldKind::Num,
            FieldKind::Num,
            FieldKind::Num,
            FieldKind::Snum,
            FieldKind::Snum,
            FieldKind::Num,
        ]);
    }
    v
}

/// Writes the balance as snapshot text, one record.
pub fn encode_balance(b: &BalanceObject) -> (r: String)
    ensures
        r@ == chars_of_bytes(spec_enc_balance(b@)),
{
    let mut fields: Vec<FieldValue> = Vec::new();
    fields.push(FieldValue::OptNum(b.blocked));
    fields.push(FieldValue::Num(b.free));
    fields.push(FieldValue::Num(b.invested));
    fields.push(FieldValue::Num(b.pie_cash));
    fields.push(FieldValue::Snum(b.ppl));
    fields.push(FieldValue::Snum(b.result));
    fields.push(FieldValue::Num(b.total));
    proof {
        assert(fields@.map_values(|f: FieldValue| f@) =~= balance_fields(b@));
    }
    let mut bytes: Vec<u8> = Vec::new();
    encode_fields(&mut bytes, &fields);
    proof {
        lemma_enc_fields_ascii(balance_fields(b@));
        assert(bytes@ =~= spec_enc_balance(b@));
    }
    string_from_ascii(bytes)
}

/// Reads the balance back from snapshot text.  Success means the text
/// is exactly a balance record; text written by [`encode_balance`]
/// always reads back, field for field.
pub fn decode_balance(s: &str) -> (r: Option<BalanceObject>)
    ensures
        r matches Some(b) ==> s@ == chars_of_bytes(spec_enc_balance(b@)),
        forall|bv: BalanceV|
            s@ == chars_of_bytes(spec_enc_balance(bv)) ==> (r matches Some(b) && b@ == bv),
{
    broadcast use vstd::string::is_ascii_spec_bytes;

    if !s.is_ascii() {
        proof {
            assert forall|bv: BalanceV| s@ != chars_of_bytes(spec_enc_balance(bv)) by {
                if s@ == chars_of_bytes(spec_enc_balance(bv)) {
                    lemma_enc_fields_ascii(balance_fields(bv));
                    assert forall|i: int| 0 <= i < s@.len() implies '\0' <= #[trigger] s@[i]
                        <= '\u{7f}' by {
                        let e = spec_enc_balance(bv);
                        assert(s@[i] == e[i] as char);
                        lemma_byte_char_byte(e[i]);
                        crate::text::lemma_label_char_ascii(s@[i]);
                    }
                    assert(vstd::utf8::is_ascii_chars(s@));
                }
            }
        }
        return None;
    }
    let bytes: Vec<u8> = s.as_bytes_vec();
    proof {
        assert(bytes@ =~= s@.map_values(|c: char| c as u8));
        vstd::utf8::is_ascii_chars_nat_bound(s@);
        assert forall|i: int| 0 <= i < bytes@.len() implies (#[trigger] bytes@[i]) < 128 by {
            assert(bytes@[i] == s@[i] as u8);
            assert((s@[i] as nat) < 128);
            crate::text::lemma_ascii_char_to_byte(s@[i]);
        }
        lemma_bytes_chars(bytes@);
        assert forall|i: int| 0 <= i < s@.len() implies #[trigger] chars_of_bytes(bytes@)[i]
            == s@[i] by {
            assert((s@[i] as nat) < 128);
            crate::text::lemma_ascii_char_to_byte(s@[i]);
            vstd::utf8::char_u32_cast(s@[i], s@[i] as u32);
        }
        assert(chars_of_bytes(bytes@) =~= s@);
        assert forall|bv: BalanceV|
            s@ == chars_of_bytes(spec_enc_balance(bv)) implies bytes@ == spec_enc_balance(bv) by {
            lemma_enc_fields_ascii(balance_fields(bv));
            lemma_bytes_chars(spec_enc_balance(bv));
            assert(label_bytes(chars_of_bytes(bytes@)) == bytes@);
            assert(label_bytes(chars_of_bytes(spec_enc_balance(bv))) == spec_enc_balance(bv));
        }
    }
    let schema = balance_schema();
    proof {
        assert forall|bv: BalanceV|
            s@ == chars_of_bytes(spec_enc_balance(bv)) implies fields_at(
            bytes@,
            0,
            balance_fields(bv),
            schema@,
        ) by {
            assert(fields_fit(balance_fields(bv), schema@));
            assert(bytes@.subrange(0, spec_enc_balance(bv).len() as int) =~= spec_enc_balance(bv));
        }
    }
    let decoded = decode_fields(&bytes, 0, &schema);
    match decoded {
        None => {
            proof {
                assert forall|bv: BalanceV| s@ != chars_of_bytes(spec_enc_balance(bv)) by {
                    if s@ == chars_of_bytes(spec_enc_balance(bv)) {
                        assert(fields_at(bytes@, 0, balance_fields(bv), schema@));
                    }
                }
            }
            None
        },
        Some((fields, end)) => {
            if end != bytes.len() {
                proof {
                    assert forall|bv: BalanceV| s@ != chars_of_bytes(spec_enc_balance(bv)) by {
                        if s@ == chars_of_bytes(spec_enc_balance(bv)) {
                            assert(fields_at(bytes@, 0, balance_fields(bv), schema@));
                        }
                    }
                }
                return None;
            }
            let ghost views = fields@.map_values(|f: FieldValue| f@);
            proof {
                assert(views.len() == 7);
                assert(kind_of(views[0]) == FieldKind::OptNum);
                assert(kind_of(views[1]) == FieldKind::Num);
                assert(kind_of(views[2]) == FieldKind::Num);
                assert(kind_of(views[3]) == FieldKind::Num);
                assert(kind_of(views[4]) == FieldKind::Snum);
                assert(kind_of(views[5]) == FieldKind::Snum);
                assert(kind_of(views[6]) == FieldKind::Num);
            }
            let blocked: Option<u64> = match &fields[0] {
                FieldValue::OptNum(o) => *o,
                _ => {
                    proof {
                        assert(views[0] == fields@[0]@);
                        assert(false);
                    }
                    return None;
                },
            };
            let free: u64 = match &fields[1] {
                FieldValue::Num(n) => *n,
                _ => {
                    proof {
                        assert(views[1] == fields@[1]@);
                        assert(false);
                    }
                    return None;
                },
            };
            let invested: u64 = match &fields[2] {
                FieldValue::Num(n) => *n,
                _ => {
                    proof {
                        assert(views[2] == fields@[2]@);
                        assert(false);
                    }
                    return None;
                },
            };
            let pie_cash: u64 = match &fields[3] {
                FieldValue::Num(n) => *n,
                _ => {
                    proof {
                        assert(views[3] == fields@[3]@);
                        assert(false);
                    }
                    return None;
                },
            };
            let ppl: i64 = match &fields[4] {
                FieldValue::Snum(v) => *v,
                _ => {
                    proof {
                        assert(views[4] == fields@[4]@);
                        assert(false);
                    }
                    return None;
                },
            };
            let result: i64 = match &fields[5] {
                FieldValue::Snum(v) => *v,
                _ => {
                    proof {
                        assert(views[5] == fields@[5]@);
                        assert(false);
                    }
                    return None;
                },
            };
            let total: u64 = match &fields[6] {
                FieldValue::Num(n) => *n,
                _ => {
                    proof {
                        assert(views[6] == fields@[6]@);
                        assert(false);
                    }
                    return None;
                },
            };
            let balance = BalanceObject { blocked, free, invested, pie_cash, ppl, result, total };
            proof {
                assert(balance_fields(balance@) =~= views);
                assert(bytes@.subrange(0, end as int) =~= bytes@);
                assert forall|bv: BalanceV|
                    s@ == chars_of_bytes(spec_enc_balance(bv)) implies balance@ == bv by {
                    assert(fields_at(bytes@, 0, balance_fields(bv), schema@));
                    assert(views == balance_fields(bv));
                    assert(balance_fields(balance@)[0] == balance_fields(bv)[0]);
                    assert(balance_fields(balance@)[1] == balance_fields(bv)[1]);
                    assert(balance_fields(balance@)[2] == balance_fields(bv)[2]);
                    assert(balance_fields(balance@)[3] == balance_fields(bv)[3]);
                    assert(balance_fields(balance@)[4] == balance_fields(bv)[4]);
                    assert(balance_fields(balance@)[5] == balance_fields(bv)[5]);
                    assert(balance_fields(balance@)[6] == balance_fields(bv)[6]);
                }
                assert forall|i: int| 0 <= i < s@.len() implies #[trigger] s@[i] == chars_of_bytes(
                    spec_enc_balance(balance@),
                )[i] by {
                    assert(chars_of_bytes(bytes@)[i] == s@[i]);
                }
                assert(s@ =~= chars_of_bytes(spec_enc_balance(balance@)));
            }
            Some(balance)
        },
    }
}

} // verus!
