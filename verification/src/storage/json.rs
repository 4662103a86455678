//! The verified JSON codec for records.
//!
//! Encoding is canonical: objects carry the fields in schema order with
//! no whitespace, numbers have no leading zeros, and strings escape
//! exactly the quote, the backslash and the control characters (the
//! latter as lowercase `\u00..`).  The parser is strict: it accepts
//! exactly the canonical form, so decoding is the exact left inverse of
//! encoding.

use vstd::prelude::*;
use vstd::utf8::{valid_utf8, encode_utf8, decode_utf8, encode_utf8_valid_utf8, encode_utf8_decode_utf8};
use vstd::string::StringSliceAdditionalSpecFns;
use crate::storage::codec::str_from_utf8;
use crate::storage::record::{FieldV, FieldValue, FieldKind, RecordV, SchemaV, Schema, Record, kind_of, record_matches};

verus! {

/// Whether `b` is an ASCII decimal digit.
pub open spec fn is_digit(b: u8) -> bool {
    0x30 <= b <= 0x39
}

/// The ASCII digit for `d`.
pub open spec fn digit_byte(d: nat) -> u8
    recommends
        d < 10,
{
    (0x30 + d) as u8
}

/// The canonical decimal encoding of `n`: most significant digit first,
/// no leading zeros.
pub open spec fn spec_enc_u64(n: nat) -> Seq<u8>
    decreases n,
{
    if n < 10 {
        seq![digit_byte(n)]
    } else {
        spec_enc_u64(n / 10) + seq![digit_byte(n % 10)]
    }
}

/// The number a run of ASCII digits denotes.
pub open spec fn digits_to_nat(ds: Seq<u8>) -> nat
    decreases ds.len(),
{
    if ds.len() == 0 {
        0
    } else {
        (digits_to_nat(ds.drop_last()) * 10 + (ds.last() - 0x30)) as nat
    }
}

/// Where the run of digits starting at `i` ends.
pub open spec fn digit_run_end(s: Seq<u8>, i: int) -> int
    decreases s.len() - i,
{
    if 0 <= i < s.len() && is_digit(s[i]) {
        digit_run_end(s, i + 1)
    } else {
        i
    }
}

/// Parse a canonical `u64` at position `i`: a nonempty digit run, no
/// leading zero, value within range.  Yields the value and the position
/// after it.
pub open spec fn jdec_u64(s: Seq<u8>, i: int) -> Option<(u64, int)> {
    let j = digit_run_end(s, i);
    if !(0 <= i < s.len() && is_digit(s[i])) {
        None
    } else if s[i] == 0x30 && j > i + 1 {
        None
    } else if digits_to_nat(s.subrange(i, j)) > u64::MAX {
        None
    } else {
        Some((digits_to_nat(s.subrange(i, j)) as u64, j))
    }
}

/// Every byte of a canonical number encoding is a digit, the encoding is
/// nonempty, and it denotes the number itself.
pub proof fn lemma_enc_u64_digits(n: nat)
    ensures
        spec_enc_u64(n).len() >= 1,
        forall|k: int| 0 <= k < spec_enc_u64(n).len() ==> is_digit(#[trigger] spec_enc_u64(n)[k]),
        digits_to_nat(spec_enc_u64(n)) == n,
        spec_enc_u64(n)[0] == 0x30 ==> n == 0,
        n == 0 ==> spec_enc_u64(n).len() == 1,
    decreases n,
{
    if n < 10 {
        assert(spec_enc_u64(n) =~= seq![digit_byte(n)]);
        assert(digits_to_nat(seq![digit_byte(n)]) == n) by {
            let e = seq![digit_byte(n)];
            assert(e.drop_last() =~= Seq::<u8>::empty());
            assert(digits_to_nat(Seq::<u8>::empty()) == 0);
            assert(e.last() == digit_byte(n));
        }
    } else {
        lemma_enc_u64_digits(n / 10);
        let e = spec_enc_u64(n);
        assert(e.drop_last() =~= spec_enc_u64(n / 10));
        assert(e.last() == digit_byte(n % 10));
        assert(digits_to_nat(e) == (n / 10) * 10 + n % 10);
        assert((n / 10) * 10 + n % 10 == n) by (nonlinear_arith);
        assert(e[0] == spec_enc_u64(n / 10)[0]);
        assert(spec_enc_u64(n / 10)[0] == 0x30 ==> n / 10 == 0);
        assert(n / 10 != 0) by (nonlinear_arith)
            requires
                n >= 10,
        ;
    }
}

/// A digit run that starts with the digits of `ds` and then a non-digit
/// (or the end) ends exactly after `ds`.
pub proof fn lemma_digit_run_of_digits(s: Seq<u8>, i: int, ds: Seq<u8>)
    requires
        0 <= i,
        i + ds.len() <= s.len(),
        forall|k: int| 0 <= k < ds.len() ==> is_digit(#[trigger] ds[k]),
        s.subrange(i, i + ds.len()) == ds,
        i + ds.len() == s.len() || !is_digit(s[i + ds.len()]),
    ensures
        digit_run_end(s, i) == i + ds.len(),
    decreases ds.len(),
{
    if ds.len() == 0 {
    } else {
        assert(s[i] == ds[0]);
        assert(is_digit(s[i]));
        assert(s.subrange(i + 1, i + ds.len()) =~= ds.subrange(1, ds.len() as int));
        lemma_digit_run_of_digits(s, i + 1, ds.subrange(1, ds.len() as int));
    }
}

/// Parsing a canonical `u64` encoding embedded at `i`, with no digit
/// right after it, yields the number and the position after the
/// encoding.
pub proof fn lemma_jdec_enc_u64(s: Seq<u8>, i: int, n: u64)
    requires
        0 <= i,
        i + spec_enc_u64(n as nat).len() <= s.len(),
        s.subrange(i, i + spec_enc_u64(n as nat).len() as int) == spec_enc_u64(n as nat),
        i + spec_enc_u64(n as nat).len() == s.len() || !is_digit(
            s[i + spec_enc_u64(n as nat).len()],
        ),
    ensures
        jdec_u64(s, i) == Some((n, i + spec_enc_u64(n as nat).len() as int)),
{
    let e = spec_enc_u64(n as nat);
    lemma_enc_u64_digits(n as nat);
    lemma_digit_run_of_digits(s, i, e);
    assert(s[i] == e[0]);
    if s[i] == 0x30 {
        assert(n == 0);
    }
    assert(s.subrange(i, digit_run_end(s, i)) == e);
}

/// A digit run's prefix denotes at most what the whole run denotes.
pub proof fn lemma_digits_prefix_le(s: Seq<u8>, i: int, j: int, k: int)
    requires
        0 <= i <= j <= k <= s.len(),
        forall|m: int| i <= m < k ==> is_digit(#[trigger] s[m]),
    ensures
        digits_to_nat(s.subrange(i, j)) <= digits_to_nat(s.subrange(i, k)),
    decreases k - j,
{
    if j < k {
        let a = s.subrange(i, k);
        let b = s.subrange(i, k - 1);
        assert(a.drop_last() =~= b);
        assert(is_digit(a.last()));
        assert(digits_to_nat(b) <= digits_to_nat(a));
        lemma_digits_prefix_le(s, i, j, k - 1);
    } else {
        assert(s.subrange(i, j) =~= s.subrange(i, k));
    }
}

/// Append the canonical decimal encoding of `n` to `out`.
pub fn enc_u64_into(n: u64, out: &mut Vec<u8>)
    ensures
        final(out)@ == old(out)@ + spec_enc_u64(n as nat),
    decreases n,
{
    if n < 10 {
        out.push(0x30 + (n as u8));
        proof {
            assert(final(out)@ =~= old(out)@ + spec_enc_u64(n as nat));
        }
    } else {
        enc_u64_into(n / 10, out);
        out.push(0x30 + ((n % 10) as u8));
        proof {
            assert(final(out)@ =~= old(out)@ + spec_enc_u64(n as nat));
        }
    }
}

/// Whether the byte at `j` is an ASCII digit.
fn byte_is_digit(s: &[u8], j: usize) -> (r: bool)
    requires
        j < s@.len(),
    ensures
        r == is_digit(s@[j as int]),
{
    let b = *vstd::slice::slice_index_get(s, j);
    0x30 <= b && b <= 0x39
}

/// Parse a canonical `u64` at `from`, exactly as the parsing
/// specification says.
pub fn parse_u64(s: &[u8], from: usize) -> (r: Option<(u64, usize)>)
    requires
        from <= s@.len(),
    ensures
        match r {
            Some(p) => jdec_u64(s@, from as int) == Some((p.0, p.1 as int)) && from < p.1
                <= s@.len(),
            None => jdec_u64(s@, from as int) is None,
        },
{
    let len = s.len();
    if from >= len {
        return None;
    }
    let first = *vstd::slice::slice_index_get(s, from);
    if !(0x30 <= first && first <= 0x39) {
        return None;
    }
    if first == 0x30 {
        if from + 1 < len {
            let second = *vstd::slice::slice_index_get(s, from + 1);
            if 0x30 <= second && second <= 0x39 {
                proof {
                    assert(digit_run_end(s@, from as int) == digit_run_end(s@, from + 1));
                    assert(digit_run_end(s@, from + 1) == digit_run_end(s@, from + 2));
                    lemma_digit_run_bounds(s@, from + 2);
                }
                return None;
            }
        }
        proof {
            assert(digit_run_end(s@, from as int) == digit_run_end(s@, from + 1));
            assert(digit_run_end(s@, from + 1) == from + 1);
            assert(s@.subrange(from as int, from + 1).last() == 0x30);
            assert(s@.subrange(from as int, from + 1).drop_last() =~= Seq::<u8>::empty());
            assert(digits_to_nat(Seq::<u8>::empty()) == 0);
            assert(digits_to_nat(s@.subrange(from as int, from + 1)) == 0);
        }
        return Some((0, from + 1));
    }
    let mut j = from;
    let mut val: u64 = 0;
    while j < len && byte_is_digit(s, j)
        invariant
            from <= j <= len,
            len == s@.len(),
            forall|m: int| from <= m < j ==> is_digit(#[trigger] s@[m]),
            digit_run_end(s@, from as int) == digit_run_end(s@, j as int),
            val == digits_to_nat(s@.subrange(from as int, j as int)),
        decreases len - j,
    {
        let b = *vstd::slice::slice_index_get(s, j);
        let d = b - 0x30;
        let stepped = match val.checked_mul(10) {
            Some(m) => m.checked_add(d as u64),
            None => None,
        };
        match stepped {
            Some(next) => {
                proof {
                    assert(s@.subrange(from as int, j + 1).drop_last() =~= s@.subrange(
                        from as int,
                        j as int,
                    ));
                }
                val = next;
                j = j + 1;
            },
            None => {
                proof {
                    let end = digit_run_end(s@, from as int);
                    assert(digit_run_end(s@, j as int) == digit_run_end(s@, j + 1));
                    lemma_digit_run_bounds(s@, j + 1);
                    assert(s@.subrange(from as int, j + 1).drop_last() =~= s@.subrange(
                        from as int,
                        j as int,
                    ));
                    assert(digits_to_nat(s@.subrange(from as int, j + 1)) > u64::MAX);
                    lemma_digit_run_is_digits(s@, from as int);
                    lemma_digits_prefix_le(s@, from as int, j + 1, end);
                }
                return None;
            },
        }
    }
    proof {
        assert(digit_run_end(s@, j as int) == j);
        lemma_digits_prefix_le(s@, from as int, from as int, j as int);
    }
    Some((val, j))
}

/// A digit run ends within the sequence and not before its start.
pub proof fn lemma_digit_run_bounds(s: Seq<u8>, i: int)
    requires
        0 <= i <= s.len(),
    ensures
        i <= digit_run_end(s, i) <= s.len(),
    decreases s.len() - i,
{
    if i < s.len() && is_digit(s[i]) {
        lemma_digit_run_bounds(s, i + 1);
    }
}

/// Every byte before a digit run's end is a digit.
pub proof fn lemma_digit_run_is_digits(s: Seq<u8>, i: int)
    requires
        0 <= i <= s.len(),
    ensures
        forall|m: int| i <= m < digit_run_end(s, i) ==> is_digit(#[trigger] s[m]),
    decreases s.len() - i,
{
    if i < s.len() && is_digit(s[i]) {
        lemma_digit_run_is_digits(s, i + 1);
    }
}

/// A digit run with a nonzero first digit denotes a positive number.
proof fn lemma_digits_positive(ds: Seq<u8>)
    requires
        ds.len() >= 1,
        forall|k: int| 0 <= k < ds.len() ==> is_digit(#[trigger] ds[k]),
        ds[0] != 0x30,
    ensures
        digits_to_nat(ds) >= 1,
    decreases ds.len(),
{
    if ds.len() == 1 {
        assert(ds.last() == ds[0]);
    } else {
        assert(ds.drop_last()[0] == ds[0]);
        lemma_digits_positive(ds.drop_last());
        assert(digits_to_nat(ds) >= digits_to_nat(ds.drop_last()) * 10);
    }
}

/// Re-encoding what a canonical digit run denotes yields the run
/// itself.
proof fn lemma_enc_of_digits(ds: Seq<u8>)
    requires
        ds.len() >= 1,
        forall|k: int| 0 <= k < ds.len() ==> is_digit(#[trigger] ds[k]),
        ds[0] != 0x30 || ds.len() == 1,
    ensures
        spec_enc_u64(digits_to_nat(ds)) == ds,
    decreases ds.len(),
{
    let n = digits_to_nat(ds);
    if ds.len() == 1 {
        assert(ds.drop_last() =~= Seq::<u8>::empty());
        assert(digits_to_nat(Seq::<u8>::empty()) == 0);
        assert(n == ds[0] - 0x30);
        assert(n < 10);
        assert(digit_byte(n) == ds[0]);
        assert(spec_enc_u64(n) =~= ds);
    } else {
        let head = ds.drop_last();
        let d = (ds.last() - 0x30) as nat;
        let v = digits_to_nat(head);
        assert(head[0] == ds[0]);
        lemma_digits_positive(head);
        assert(n == v * 10 + d);
        assert(n >= 10) by (nonlinear_arith)
            requires
                v >= 1,
                n == v * 10 + d,
                d >= 0,
        ;
        assert(n / 10 == v && n % 10 == d) by (nonlinear_arith)
            requires
                n == v * 10 + d,
                0 <= d < 10,
        ;
        lemma_enc_of_digits(head);
        assert(digit_byte(n % 10) == ds.last());
        assert(spec_enc_u64(n) == spec_enc_u64(v) + seq![ds.last()]);
        assert(spec_enc_u64(n) =~= ds);
    }
}

/// Strictness for numbers: a successful parse consumed exactly the
/// canonical encoding of the value it returned.
pub proof fn lemma_jdec_u64_exact(s: Seq<u8>, i: int)
    ensures
        jdec_u64(s, i) matches Some(p) ==> {
            &&& i < p.1 <= s.len()
            &&& s.subrange(i, p.1) == spec_enc_u64(p.0 as nat)
        },
{
    if jdec_u64(s, i) is Some {
        let p = jdec_u64(s, i)->0;
        let j = digit_run_end(s, i);
        lemma_digit_run_bounds(s, i + 1);
        assert(digit_run_end(s, i) == digit_run_end(s, i + 1));
        lemma_digit_run_is_digits(s, i);
        let ds = s.subrange(i, j);
        assert(forall|k: int| 0 <= k < ds.len() ==> is_digit(#[trigger] ds[k])) by {
            assert(forall|k: int|
                0 <= k < ds.len() ==> #[trigger] ds[k] == s[i + k] && is_digit(s[i + k]));
        }
        assert(ds[0] == s[i]);
        lemma_enc_of_digits(ds);
    }
}

/// The lowercase hexadecimal digit for `d`.
pub open spec fn hex_digit(d: nat) -> u8
    recommends
        d < 16,
{
    if d < 10 {
        (0x30 + d) as u8
    } else {
        (0x57 + d) as u8
    }
}

/// Whether `b` is a lowercase hexadecimal digit.
pub open spec fn is_hex_lower(b: u8) -> bool {
    is_digit(b) || (0x61 <= b <= 0x66)
}

/// The value of a lowercase hexadecimal digit.
pub open spec fn hex_val(b: u8) -> nat
    recommends
        is_hex_lower(b),
{
    if is_digit(b) {
        (b - 0x30) as nat
    } else {
        (b - 0x57) as nat
    }
}

/// How one byte of string content is written: the quote and the
/// backslash get a two-byte escape, control bytes a lowercase `\u00..`
/// escape, everything else stands as itself.
pub open spec fn esc_byte(b: u8) -> Seq<u8> {
    if b == 0x22 {
        seq![0x5cu8, 0x22u8]
    } else if b == 0x5c {
        seq![0x5cu8, 0x5cu8]
    } else if b < 0x20 {
        seq![0x5cu8, 0x75u8, 0x30u8, 0x30u8, hex_digit((b / 16) as nat), hex_digit((b % 16) as nat)]
    } else {
        seq![b]
    }
}

/// String content, escaped byte by byte.
pub open spec fn spec_esc_bytes(u: Seq<u8>) -> Seq<u8>
    decreases u.len(),
{
    if u.len() == 0 {
        Seq::empty()
    } else {
        esc_byte(u[0]) + spec_esc_bytes(u.skip(1))
    }
}

/// Escaping one more byte appends its escape.
pub proof fn lemma_esc_bytes_push(u: Seq<u8>, b: u8)
    ensures
        spec_esc_bytes(u.push(b)) == spec_esc_bytes(u) + esc_byte(b),
    decreases u.len(),
{
    if u.len() == 0 {
        assert(u.push(b) =~= seq![b]);
        assert(u.push(b)[0] == b);
        assert(u.push(b).skip(1) =~= Seq::<u8>::empty());
        assert(spec_esc_bytes(u.push(b)) == esc_byte(b) + spec_esc_bytes(Seq::<u8>::empty()));
        assert(spec_esc_bytes(u) =~= Seq::<u8>::empty());
        assert(spec_esc_bytes(u.push(b)) =~= spec_esc_bytes(u) + esc_byte(b));
    } else {
        assert(u.push(b)[0] == u[0]);
        assert(u.push(b).skip(1) =~= u.skip(1).push(b));
        lemma_esc_bytes_push(u.skip(1), b);
        assert(spec_esc_bytes(u.push(b)) == esc_byte(u[0]) + (spec_esc_bytes(u.skip(1))
            + esc_byte(b)));
        assert(spec_esc_bytes(u.push(b)) =~= spec_esc_bytes(u) + esc_byte(b));
    }
}

/// A JSON string encoding: quote, escaped content bytes, quote.
pub open spec fn spec_enc_str_bytes(u: Seq<u8>) -> Seq<u8> {
    seq![0x22u8] + spec_esc_bytes(u) + seq![0x22u8]
}

/// The JSON encoding of a string value: its UTF-8 bytes, escaped,
/// between quotes.
pub open spec fn spec_enc_str(t: Seq<char>) -> Seq<u8> {
    spec_enc_str_bytes(encode_utf8(t))
}

/// Prefix the content of a partial parse.
pub open spec fn cont_append(prefix: Seq<u8>, r: Option<(Seq<u8>, int)>) -> Option<(Seq<u8>, int)> {
    match r {
        Some(p) => Some((prefix + p.0, p.1)),
        None => None,
    }
}

/// Parse escaped string content up to and including the closing quote,
/// yielding the unescaped bytes and the position after the quote.  Only
/// the canonical escapes are accepted.
pub open spec fn jdec_str_content(s: Seq<u8>, i: int) -> Option<(Seq<u8>, int)>
    decreases s.len() - i,
{
    if i < 0 || i >= s.len() {
        None
    } else if s[i] == 0x22 {
        Some((Seq::empty(), i + 1))
    } else if s[i] == 0x5c {
        if i + 1 >= s.len() {
            None
        } else if s[i + 1] == 0x22 {
            cont_append(seq![0x22u8], jdec_str_content(s, i + 2))
        } else if s[i + 1] == 0x5c {
            cont_append(seq![0x5cu8], jdec_str_content(s, i + 2))
        } else if s[i + 1] == 0x75 {
            if i + 5 >= s.len() {
                None
            } else if s[i + 2] == 0x30 && s[i + 3] == 0x30 && is_hex_lower(s[i + 4]) && is_hex_lower(
                s[i + 5],
            ) && hex_val(s[i + 4]) * 16 + hex_val(s[i + 5]) < 0x20 {
                cont_append(
                    seq![(hex_val(s[i + 4]) * 16 + hex_val(s[i + 5])) as u8],
                    jdec_str_content(s, i + 6),
                )
            } else {
                None
            }
        } else {
            None
        }
    } else if s[i] < 0x20 {
        None
    } else {
        cont_append(seq![s[i]], jdec_str_content(s, i + 1))
    }
}

/// A successful content parse ends after its start and within the
/// input.
pub proof fn lemma_jdec_content_bounds(s: Seq<u8>, i: int)
    ensures
        jdec_str_content(s, i) matches Some(p) ==> i < p.1 <= s.len(),
    decreases s.len() - i,
{
    if 0 <= i < s.len() {
        lemma_jdec_content_bounds(s, i + 1);
        if i + 2 <= s.len() {
            lemma_jdec_content_bounds(s, i + 2);
        }
        if i + 6 <= s.len() {
            lemma_jdec_content_bounds(s, i + 6);
        }
    }
}

/// Parsing escaped content followed by a closing quote yields the
/// content and stops after the quote.
pub proof fn lemma_jdec_content_enc(s: Seq<u8>, i: int, u: Seq<u8>)
    requires
        0 <= i,
        i + spec_esc_bytes(u).len() + 1 <= s.len(),
        s.subrange(i, i + spec_esc_bytes(u).len() as int) == spec_esc_bytes(u),
        s[i + spec_esc_bytes(u).len()] == 0x22,
    ensures
        jdec_str_content(s, i) == Some((u, i + spec_esc_bytes(u).len() + 1)),
    decreases u.len(),
{
    if u.len() == 0 {
        assert(spec_esc_bytes(u).len() == 0);
        assert(s[i] == 0x22);
    } else {
        let b = u[0];
        let e0 = esc_byte(b);
        let rest = spec_esc_bytes(u.skip(1));
        assert(spec_esc_bytes(u) == e0 + rest);
        assert forall|k: int| 0 <= k < e0.len() implies s[i + k] == e0[k] by {
            assert(s.subrange(i, i + spec_esc_bytes(u).len() as int)[k] == s[i + k]);
            assert((e0 + rest)[k] == e0[k]);
        }
        assert forall|k: int| 0 <= k < rest.len() implies s[i + e0.len() + k] == rest[k] by {
            assert(s.subrange(i, i + spec_esc_bytes(u).len() as int)[e0.len() + k] == s[i
                + e0.len() + k]);
            assert((e0 + rest)[e0.len() + k] == rest[k]);
        }
        assert(s.subrange(i + e0.len(), i + spec_esc_bytes(u).len() as int) =~= rest);
        lemma_jdec_content_enc(s, i + e0.len(), u.skip(1));
        let tail = jdec_str_content(s, i + e0.len());
        assert(tail == Some((u.skip(1), i + spec_esc_bytes(u).len() + 1)));
        if b == 0x22 {
            assert(s[i] == 0x5c && s[i + 1] == 0x22);
            assert(seq![0x22u8] + u.skip(1) =~= u);
        } else if b == 0x5c {
            assert(s[i] == 0x5c && s[i + 1] == 0x5c);
            assert(seq![0x5cu8] + u.skip(1) =~= u);
        } else if b < 0x20 {
            assert(s[i] == 0x5c && s[i + 1] == 0x75 && s[i + 2] == 0x30 && s[i + 3] == 0x30);
            assert(s[i + 4] == hex_digit((b / 16) as nat));
            assert(s[i + 5] == hex_digit((b % 16) as nat));
            assert(is_hex_lower(hex_digit((b / 16) as nat)));
            assert(is_hex_lower(hex_digit((b % 16) as nat)));
            assert(hex_val(hex_digit((b / 16) as nat)) == b / 16);
            assert(hex_val(hex_digit((b % 16) as nat)) == b % 16);
            assert((b / 16) * 16 + b % 16 == b) by (nonlinear_arith);
            assert(hex_val(s[i + 4]) * 16 + hex_val(s[i + 5]) == b);
            assert(seq![b] + u.skip(1) =~= u);
        } else {
            assert(s[i + 0] == e0[0]);
            assert(s[i] == b);
            assert(s[i] != 0x22 && s[i] != 0x5c && !(s[i] < 0x20));
            assert(seq![b] + u.skip(1) =~= u);
        }
    }
}

/// Append the JSON string encoding of `t` to `out`.
pub fn enc_str_into(t: &str, out: &mut Vec<u8>)
    ensures
        final(out)@ == old(out)@ + spec_enc_str(t@),
{
    out.push(0x22);
    let bytes = t.as_bytes();
    let ghost mid = out@;
    let mut k: usize = 0;
    while k < bytes.len()
        invariant
            k <= bytes@.len(),
            mid == old(out)@ + seq![0x22u8],
            out@ == mid + spec_esc_bytes(bytes@.subrange(0, k as int)),
        decreases bytes@.len() - k,
    {
        let b = *vstd::slice::slice_index_get(bytes, k);
        proof {
            assert(bytes@.subrange(0, k + 1) =~= bytes@.subrange(0, k as int).push(b));
            lemma_esc_bytes_push(bytes@.subrange(0, k as int), b);
        }
        if b == 0x22 {
            out.push(0x5c);
            out.push(0x22);
        } else if b == 0x5c {
            out.push(0x5c);
            out.push(0x5c);
        } else if b < 0x20 {
            out.push(0x5c);
            out.push(0x75);
            out.push(0x30);
            out.push(0x30);
            let hi = b / 16;
            let lo = b % 16;
            out.push(if hi < 10 { 0x30 + hi } else { 0x57 + hi });
            out.push(if lo < 10 { 0x30 + lo } else { 0x57 + lo });
        } else {
            out.push(b);
        }
        proof {
            assert(out@ =~= mid + spec_esc_bytes(bytes@.subrange(0, k + 1)));
        }
        k = k + 1;
    }
    out.push(0x22);
    proof {
        assert(bytes@.subrange(0, bytes@.len() as int) =~= bytes@);
        assert(bytes@ == t.spec_bytes());
        assert(final(out)@ =~= old(out)@ + spec_enc_str(t@));
    }
}

/// Parse a JSON string at `i`: an opening quote, canonical escaped
/// content whose unescaped bytes are valid UTF-8, and a closing quote.
/// Yields the characters and the position after the closing quote.
pub open spec fn jdec_string(s: Seq<u8>, i: int) -> Option<(Seq<char>, int)> {
    if 0 <= i < s.len() && s[i] == 0x22 {
        match jdec_str_content(s, i + 1) {
            Some(p) => if valid_utf8(p.0) {
                Some((decode_utf8(p.0), p.1))
            } else {
                None
            },
            None => None,
        }
    } else {
        None
    }
}

/// Parsing a string encoding embedded at `i` yields the characters and
/// the position after it.
pub proof fn lemma_jdec_enc_str(s: Seq<u8>, i: int, t: Seq<char>)
    requires
        0 <= i,
        i + spec_enc_str(t).len() <= s.len(),
        s.subrange(i, i + spec_enc_str(t).len() as int) == spec_enc_str(t),
    ensures
        jdec_string(s, i) == Some((t, i + spec_enc_str(t).len() as int)),
{
    let u = encode_utf8(t);
    let e = spec_enc_str(t);
    assert(e == seq![0x22u8] + spec_esc_bytes(u) + seq![0x22u8]);
    assert forall|k: int| 0 <= k < e.len() implies s[i + k] == e[k] by {
        assert(s.subrange(i, i + e.len() as int)[k] == s[i + k]);
    }
    assert(s[i] == e[0]);
    assert(e[0] == 0x22);
    assert forall|k: int| 0 <= k < spec_esc_bytes(u).len() implies s[i + 1 + k] == spec_esc_bytes(
        u,
    )[k] by {
        assert(e[1 + k] == (seq![0x22u8] + spec_esc_bytes(u) + seq![0x22u8])[1 + k]);
        assert(s[i + (1 + k)] == e[1 + k]);
    }
    assert(s.subrange(i + 1, i + 1 + spec_esc_bytes(u).len() as int) =~= spec_esc_bytes(u));
    assert(s[i + 1 + spec_esc_bytes(u).len()] == e[e.len() - 1]);
    assert(e[e.len() - 1] == 0x22);
    lemma_jdec_content_enc(s, i + 1, u);
    encode_utf8_valid_utf8(t);
    encode_utf8_decode_utf8(t);
}

/// Parse escaped string content at `from`, exactly as the parsing
/// specification says.
pub fn parse_str_content(s: &[u8], from: usize) -> (r: Option<(Vec<u8>, usize)>)
    requires
        from <= s@.len(),
    ensures
        match r {
            Some(p) => jdec_str_content(s@, from as int) == Some((p.0@, p.1 as int)) && from < p.1
                <= s@.len(),
            None => jdec_str_content(s@, from as int) is None,
        },
{
    let len = s.len();
    let mut out: Vec<u8> = Vec::new();
    let mut j = from;
    loop
        invariant
            from <= j <= len,
            len == s@.len(),
            jdec_str_content(s@, from as int) == cont_append(out@, jdec_str_content(s@, j as int)),
        decreases len - j,
    {
        if j >= len {
            return None;
        }
        let b = *vstd::slice::slice_index_get(s, j);
        if b == 0x22 {
            proof {
                assert(out@ + Seq::<u8>::empty() =~= out@);
            }
            return Some((out, j + 1));
        } else if b == 0x5c {
            if j + 1 >= len {
                return None;
            }
            let e = *vstd::slice::slice_index_get(s, j + 1);
            if e == 0x22 {
                proof {
                    lemma_cont_step(s@, from as int, j as int, out@, 0x22, j + 2);
                }
                out.push(0x22);
                j = j + 2;
            } else if e == 0x5c {
                proof {
                    lemma_cont_step(s@, from as int, j as int, out@, 0x5c, j + 2);
                }
                out.push(0x5c);
                j = j + 2;
            } else if e == 0x75 {
                if len - j <= 5 {
                    proof {
                        assert(j + 5 >= len);
                    }
                    return None;
                }
                let h2 = *vstd::slice::slice_index_get(s, j + 2);
                let h3 = *vstd::slice::slice_index_get(s, j + 3);
                let h4 = *vstd::slice::slice_index_get(s, j + 4);
                let h5 = *vstd::slice::slice_index_get(s, j + 5);
                let hex4 = if 0x30 <= h4 && h4 <= 0x39 {
                    Some(h4 - 0x30)
                } else if 0x61 <= h4 && h4 <= 0x66 {
                    Some(h4 - 0x57)
                } else {
                    None
                };
                let hex5 = if 0x30 <= h5 && h5 <= 0x39 {
                    Some(h5 - 0x30)
                } else if 0x61 <= h5 && h5 <= 0x66 {
                    Some(h5 - 0x57)
                } else {
                    None
                };
                match (hex4, hex5) {
                    (Some(v4), Some(v5)) => {
                        if h2 == 0x30 && h3 == 0x30 && (v4 as u32) * 16 + (v5 as u32) < 0x20 {
                            let decoded: u8 = v4 * 16 + v5;
                            proof {
                                lemma_cont_step(s@, from as int, j as int, out@, decoded, j + 6);
                            }
                            out.push(decoded);
                            j = j + 6;
                        } else {
                            return None;
                        }
                    },
                    _ => {
                        return None;
                    },
                }
            } else {
                return None;
            }
        } else if b < 0x20 {
            return None;
        } else {
            proof {
                lemma_cont_step(s@, from as int, j as int, out@, b, j + 1);
            }
            out.push(b);
            j = j + 1;
        }
    }
}

/// One parsing step: when the content at `j` starts with the decoded
/// byte `b` and continues at `next`, the accumulated prefix absorbs it.
proof fn lemma_cont_step(s: Seq<u8>, from: int, j: int, acc: Seq<u8>, b: u8, next: int)
    requires
        jdec_str_content(s, from) == cont_append(acc, jdec_str_content(s, j)),
        jdec_str_content(s, j) == cont_append(seq![b], jdec_str_content(s, next)),
    ensures
        jdec_str_content(s, from) == cont_append(acc.push(b), jdec_str_content(s, next)),
{
    match jdec_str_content(s, next) {
        Some(p) => {
            assert(acc + (seq![b] + p.0) =~= acc.push(b) + p.0);
        },
        None => {},
    }
}

/// Parse a JSON string at `from`, exactly as the parsing specification
/// says.
pub fn parse_string(s: &[u8], from: usize) -> (r: Option<(String, usize)>)
    requires
        from <= s@.len(),
    ensures
        match r {
            Some(p) => jdec_string(s@, from as int) == Some((p.0@, p.1 as int)) && from < p.1
                <= s@.len(),
            None => jdec_string(s@, from as int) is None,
        },
{
    let len = s.len();
    if from >= len {
        return None;
    }
    let b = *vstd::slice::slice_index_get(s, from);
    if b != 0x22 {
        return None;
    }
    match parse_str_content(s, from + 1) {
        Some((content, end)) => {
            match str_from_utf8(content.as_slice()) {
                Some(text) => {
                    proof {
                        encode_utf8_decode_utf8(text@);
                    }
                    Some((text.to_owned(), end))
                },
                None => None,
            }
        },
        None => None,
    }
}

/// The JSON encoding of a boolean: the literal `true` or `false`.
pub open spec fn spec_enc_bool(b: bool) -> Seq<u8> {
    if b {
        seq![0x74u8, 0x72u8, 0x75u8, 0x65u8]
    } else {
        seq![0x66u8, 0x61u8, 0x6cu8, 0x73u8, 0x65u8]
    }
}

/// Parse a boolean literal at `i`.
pub open spec fn jdec_bool(s: Seq<u8>, i: int) -> Option<(bool, int)> {
    if 0 <= i && i + 4 <= s.len() && s[i] == 0x74 && s[i + 1] == 0x72 && s[i + 2] == 0x75 && s[i
        + 3] == 0x65 {
        Some((true, i + 4))
    } else if 0 <= i && i + 5 <= s.len() && s[i] == 0x66 && s[i + 1] == 0x61 && s[i + 2] == 0x6c
        && s[i + 3] == 0x73 && s[i + 4] == 0x65 {
        Some((false, i + 5))
    } else {
        None
    }
}

/// Parsing a boolean encoding embedded at `i` yields the boolean.
pub proof fn lemma_jdec_enc_bool(s: Seq<u8>, i: int, b: bool)
    requires
        0 <= i,
        i + spec_enc_bool(b).len() <= s.len(),
        s.subrange(i, i + spec_enc_bool(b).len() as int) == spec_enc_bool(b),
    ensures
        jdec_bool(s, i) == Some((b, i + spec_enc_bool(b).len() as int)),
{
    let e = spec_enc_bool(b);
    assert forall|k: int| 0 <= k < e.len() implies s[i + k] == e[k] by {
        assert(s.subrange(i, i + e.len() as int)[k] == s[i + k]);
    }
    assert(s[i + 0] == e[0]);
    assert(s[i + 1] == e[1]);
    assert(s[i + 2] == e[2]);
    assert(s[i + 3] == e[3]);
    if !b {
        assert(s[i + 4] == e[4]);
    }
}

/// Append the boolean literal to `out`.
pub fn enc_bool_into(b: bool, out: &mut Vec<u8>)
    ensures
        final(out)@ == old(out)@ + spec_enc_bool(b),
{
    if b {
        out.push(0x74);
        out.push(0x72);
        out.push(0x75);
        out.push(0x65);
    } else {
        out.push(0x66);
        out.push(0x61);
        out.push(0x6c);
        out.push(0x73);
        out.push(0x65);
    }
    proof {
        assert(final(out)@ =~= old(out)@ + spec_enc_bool(b));
    }
}

/// Parse a boolean literal at `from`, exactly as the parsing
/// specification says.
pub fn parse_bool(s: &[u8], from: usize) -> (r: Option<(bool, usize)>)
    requires
        from <= s@.len(),
    ensures
        match r {
            Some(p) => jdec_bool(s@, from as int) == Some((p.0, p.1 as int)) && from < p.1
                <= s@.len(),
            None => jdec_bool(s@, from as int) is None,
        },
{
    let len = s.len();
    if len - from >= 4 {
        let b0 = *vstd::slice::slice_index_get(s, from);
        let b1 = *vstd::slice::slice_index_get(s, from + 1);
        let b2 = *vstd::slice::slice_index_get(s, from + 2);
        let b3 = *vstd::slice::slice_index_get(s, from + 3);
        if b0 == 0x74 && b1 == 0x72 && b2 == 0x75 && b3 == 0x65 {
            return Some((true, from + 4));
        }
        if len - from >= 5 {
            let b4 = *vstd::slice::slice_index_get(s, from + 4);
            if b0 == 0x66 && b1 == 0x61 && b2 == 0x6c && b3 == 0x73 && b4 == 0x65 {
                return Some((false, from + 5));
            }
        }
    }
    None
}

/// The JSON encoding of a signed integer: a minus sign for negative
/// values, then the decimal magnitude.
pub open spec fn spec_enc_i64(x: int) -> Seq<u8> {
    if x < 0 {
        seq![0x2du8] + spec_enc_u64((-x) as nat)
    } else {
        spec_enc_u64(x as nat)
    }
}

/// Parse a canonical signed integer at `i`.  A minus sign must be
/// followed by a nonzero magnitude; the value must fit in an `i64`.
pub open spec fn jdec_i64(s: Seq<u8>, i: int) -> Option<(i64, int)> {
    if 0 <= i < s.len() && s[i] == 0x2d {
        match jdec_u64(s, i + 1) {
            Some(p) => if 1 <= p.0 <= 0x8000000000000000u64 {
                Some(((-(p.0 as int)) as i64, p.1))
            } else {
                None
            },
            None => None,
        }
    } else {
        match jdec_u64(s, i) {
            Some(p) => if p.0 <= i64::MAX as u64 {
                Some((p.0 as i64, p.1))
            } else {
                None
            },
            None => None,
        }
    }
}

/// Parsing a signed-integer encoding embedded at `i`, with no digit
/// right after it, yields the value.
pub proof fn lemma_jdec_enc_i64(s: Seq<u8>, i: int, x: i64)
    requires
        0 <= i,
        i + spec_enc_i64(x as int).len() <= s.len(),
        s.subrange(i, i + spec_enc_i64(x as int).len() as int) == spec_enc_i64(x as int),
        i + spec_enc_i64(x as int).len() == s.len() || !is_digit(
            s[i + spec_enc_i64(x as int).len()],
        ),
    ensures
        jdec_i64(s, i) == Some((x, i + spec_enc_i64(x as int).len() as int)),
{
    let e = spec_enc_i64(x as int);
    if x < 0 {
        let m = spec_enc_u64((-x) as nat);
        assert(e == seq![0x2du8] + m);
        assert(s.subrange(i, i + e.len() as int)[0] == s[i]);
        assert(s[i] == 0x2d);
        assert forall|k: int| 0 <= k < m.len() implies s[i + 1 + k] == m[k] by {
            assert(s.subrange(i, i + e.len() as int)[1 + k] == s[i + (1 + k)]);
            assert((seq![0x2du8] + m)[1 + k] == m[k]);
        }
        assert(s.subrange(i + 1, i + 1 + m.len() as int) =~= m);
        let mag = (-(x as int)) as u64;
        assert(spec_enc_u64(mag as nat) == m);
        lemma_jdec_enc_u64(s, i + 1, mag);
        assert(1 <= mag <= 0x8000000000000000u64);
        assert((-(mag as int)) as i64 == x);
    } else {
        lemma_enc_u64_digits(x as nat);
        assert(spec_enc_u64(x as nat)[0] != 0x2d) by {
            assert(is_digit(spec_enc_u64(x as nat)[0]));
        }
        assert(s.subrange(i, i + e.len() as int)[0] == s[i]);
        assert(s[i] != 0x2d);
        lemma_jdec_enc_u64(s, i, x as u64);
    }
}

/// Append the signed-integer encoding of `x` to `out`.
pub fn enc_i64_into(x: i64, out: &mut Vec<u8>)
    ensures
        final(out)@ == old(out)@ + spec_enc_i64(x as int),
{
    if x < 0 {
        out.push(0x2d);
        let mag: u64 = ((-(x as i128)) as u64);
        enc_u64_into(mag, out);
        proof {
            assert(final(out)@ =~= old(out)@ + spec_enc_i64(x as int));
        }
    } else {
        enc_u64_into(x as u64, out);
    }
}

/// Parse a canonical signed integer at `from`, exactly as the parsing
/// specification says.
pub fn parse_i64(s: &[u8], from: usize) -> (r: Option<(i64, usize)>)
    requires
        from <= s@.len(),
    ensures
        match r {
            Some(p) => jdec_i64(s@, from as int) == Some((p.0, p.1 as int)) && from < p.1
                <= s@.len(),
            None => jdec_i64(s@, from as int) is None,
        },
{
    let len = s.len();
    if from < len && *vstd::slice::slice_index_get(s, from) == 0x2d {
        match parse_u64(s, from + 1) {
            Some((m, j)) => {
                if 1 <= m && m <= 0x8000000000000000u64 {
                    let value: i64 = (-(m as i128)) as i64;
                    Some((value, j))
                } else {
                    None
                }
            },
            None => None,
        }
    } else {
        match parse_u64(s, from) {
            Some((m, j)) => {
                if m <= 0x7fffffffffffffffu64 {
                    Some((m as i64, j))
                } else {
                    None
                }
            },
            None => None,
        }
    }
}

/// A successful string parse ends after its start and within the input.
pub proof fn lemma_jdec_string_bounds(s: Seq<u8>, i: int)
    ensures
        jdec_string(s, i) matches Some(p) ==> i < p.1 <= s.len(),
{
    lemma_jdec_content_bounds(s, i + 1);
}

/// The encoding of the items of `l` from `idx` on: the string encodings
/// joined with commas.
pub open spec fn spec_enc_list_items(l: Seq<Seq<char>>, idx: int) -> Seq<u8>
    decreases l.len() - idx,
{
    if idx < 0 || idx >= l.len() {
        Seq::empty()
    } else if idx == l.len() - 1 {
        spec_enc_str(l[idx])
    } else {
        spec_enc_str(l[idx]) + seq![0x2cu8] + spec_enc_list_items(l, idx + 1)
    }
}

/// The JSON encoding of a list of strings.
pub open spec fn spec_enc_list(l: Seq<Seq<char>>) -> Seq<u8> {
    seq![0x5bu8] + spec_enc_list_items(l, 0) + seq![0x5du8]
}

/// Parse the items of a nonempty list at `i`, up to and including the
/// closing bracket.
pub open spec fn jdec_list_items(s: Seq<u8>, i: int) -> Option<(Seq<Seq<char>>, int)>
    decreases s.len() - i,
{
    match jdec_string(s, i) {
        Some(p) => {
            proof {
                lemma_jdec_string_bounds(s, i);
            }
            if p.1 < s.len() && s[p.1] == 0x2c {
                match jdec_list_items(s, p.1 + 1) {
                    Some(q) => Some((seq![p.0] + q.0, q.1)),
                    None => None,
                }
            } else if p.1 < s.len() && s[p.1] == 0x5d {
                Some((seq![p.0], p.1 + 1))
            } else {
                None
            }
        },
        None => None,
    }
}

/// Parse a list of strings at `i`: brackets around comma-separated
/// string encodings.
pub open spec fn jdec_list(s: Seq<u8>, i: int) -> Option<(Seq<Seq<char>>, int)> {
    if 0 <= i < s.len() && s[i] == 0x5b {
        if i + 1 < s.len() && s[i + 1] == 0x5d {
            Some((Seq::empty(), i + 2))
        } else {
            jdec_list_items(s, i + 1)
        }
    } else {
        None
    }
}

/// Parsing the encoded items of `l` from `idx` on, followed by the
/// closing bracket, yields exactly those items.
pub proof fn lemma_jdec_enc_list_items(s: Seq<u8>, i: int, l: Seq<Seq<char>>, idx: int)
    requires
        0 <= i,
        0 <= idx < l.len(),
        i + spec_enc_list_items(l, idx).len() + 1 <= s.len(),
        s.subrange(i, i + spec_enc_list_items(l, idx).len() as int) == spec_enc_list_items(l, idx),
        s[i + spec_enc_list_items(l, idx).len()] == 0x5d,
    ensures
        jdec_list_items(s, i) == Some((l.skip(idx), i + spec_enc_list_items(l, idx).len() + 1)),
    decreases l.len() - idx,
{
    let e = spec_enc_list_items(l, idx);
    let first = spec_enc_str(l[idx]);
    if idx == l.len() - 1 {
        assert(e == first);
        lemma_jdec_enc_str(s, i, l[idx]);
        assert(s[i + first.len()] == 0x5d);
        assert(seq![l[idx]] =~= l.skip(idx));
    } else {
        let rest = spec_enc_list_items(l, idx + 1);
        assert(e == first + seq![0x2cu8] + rest);
        assert forall|k: int| 0 <= k < e.len() implies s[i + k] == e[k] by {
            assert(s.subrange(i, i + e.len() as int)[k] == s[i + k]);
        }
        assert(s.subrange(i, i + first.len() as int) =~= first);
        lemma_jdec_enc_str(s, i, l[idx]);
        assert(s[i + first.len()] == e[first.len() as int]);
        assert(e[first.len() as int] == 0x2c);
        assert forall|k: int| 0 <= k < rest.len() implies s[i + first.len() + 1 + k] == rest[k] by {
            assert(e[first.len() + 1 + k] == rest[k]);
            assert(s[i + (first.len() + 1 + k)] == e[first.len() + 1 + k]);
        }
        assert(s.subrange(i + first.len() + 1, i + first.len() + 1 + rest.len() as int) =~= rest);
        lemma_jdec_enc_list_items(s, i + first.len() + 1, l, idx + 1);
        assert(seq![l[idx]] + l.skip(idx + 1) =~= l.skip(idx));
    }
}

/// Parsing a list encoding embedded at `i` yields the list.
pub proof fn lemma_jdec_enc_list(s: Seq<u8>, i: int, l: Seq<Seq<char>>)
    requires
        0 <= i,
        i + spec_enc_list(l).len() <= s.len(),
        s.subrange(i, i + spec_enc_list(l).len() as int) == spec_enc_list(l),
    ensures
        jdec_list(s, i) == Some((l, i + spec_enc_list(l).len() as int)),
{
    let e = spec_enc_list(l);
    let items = spec_enc_list_items(l, 0);
    assert forall|k: int| 0 <= k < e.len() implies s[i + k] == e[k] by {
        assert(s.subrange(i, i + e.len() as int)[k] == s[i + k]);
    }
    assert(s[i + 0] == e[0]);
    assert(e[0] == 0x5b);
    if l.len() == 0 {
        assert(items =~= Seq::<u8>::empty());
        assert(s[i + 1] == e[1]);
        assert(e[1] == 0x5d);
    } else {
        assert forall|k: int| 0 <= k < items.len() implies s[i + 1 + k] == items[k] by {
            assert(e[1 + k] == items[k]);
            assert(s[i + (1 + k)] == e[1 + k]);
        }
        assert(s.subrange(i + 1, i + 1 + items.len() as int) =~= items);
        assert(s[i + 1 + items.len()] == e[e.len() - 1]);
        assert(e[e.len() - 1] == 0x5d);
        lemma_jdec_enc_list_items(s, i + 1, l, 0);
        assert(l.skip(0) =~= l);
        // the first item starts with a quote, not a bracket
        lemma_enc_list_items_head(l, 0);
        assert(s[i + 1] == items[0]);
        assert(s[i + 1] != 0x5d);
    }
}

/// A nonempty item run starts with a quote.
pub proof fn lemma_enc_list_items_head(l: Seq<Seq<char>>, idx: int)
    requires
        0 <= idx < l.len(),
    ensures
        spec_enc_list_items(l, idx).len() >= 2,
        spec_enc_list_items(l, idx)[0] == 0x22,
{
    let first = spec_enc_str(l[idx]);
    assert(first[0] == 0x22);
    assert(first.len() >= 2);
    if idx == l.len() - 1 {
    } else {
        assert(spec_enc_list_items(l, idx)[0] == first[0]);
    }
}

/// The unique lowercase hexadecimal digit with a given value.
proof fn lemma_hex_unique(b: u8, v: nat)
    requires
        is_hex_lower(b),
        hex_val(b) == v,
    ensures
        b == hex_digit(v),
{
}

/// Strictness for string content: a successful parse consumed exactly
/// the escaped form of the bytes it returned, plus the closing quote.
pub proof fn lemma_jdec_content_exact(s: Seq<u8>, i: int)
    ensures
        jdec_str_content(s, i) matches Some(p) ==> {
            &&& i + spec_esc_bytes(p.0).len() + 1 == p.1 <= s.len()
            &&& s.subrange(i, p.1 - 1) == spec_esc_bytes(p.0)
            &&& s[p.1 - 1] == 0x22
        },
    decreases s.len() - i,
{
    lemma_jdec_content_bounds(s, i);
    if jdec_str_content(s, i) is Some && 0 <= i < s.len() {
        let p = jdec_str_content(s, i)->0;
        if s[i] == 0x22 {
            assert(spec_esc_bytes(p.0).len() == 0);
            assert(s.subrange(i, i) =~= spec_esc_bytes(p.0));
        } else {
            // one head byte, then the rest of the content
            let (head, next): (u8, int) = if s[i] == 0x5c {
                if s[i + 1] == 0x22 {
                    (0x22u8, i + 2)
                } else if s[i + 1] == 0x5c {
                    (0x5cu8, i + 2)
                } else {
                    (((hex_val(s[i + 4]) * 16 + hex_val(s[i + 5])) as u8), i + 6)
                }
            } else {
                (s[i], i + 1)
            };
            let rest = jdec_str_content(s, next)->0;
            assert(p.0 == seq![head] + rest.0 && p.1 == rest.1);
            lemma_jdec_content_exact(s, next);
            // the consumed head bytes are exactly the escape of `head`
            assert(s.subrange(i, next) == esc_byte(head)) by {
                if s[i] == 0x5c {
                    if s[i + 1] == 0x22 || s[i + 1] == 0x5c {
                        assert(s.subrange(i, next) =~= esc_byte(head));
                    } else {
                        let b = (hex_val(s[i + 4]) * 16 + hex_val(s[i + 5])) as u8;
                        assert(hex_val(s[i + 4]) * 16 + hex_val(s[i + 5]) < 0x20);
                        assert(hex_val(s[i + 4]) <= 1);
                        assert(b / 16 == hex_val(s[i + 4]) && b % 16 == hex_val(s[i + 5])) by (nonlinear_arith)
                            requires
                                b == hex_val(s[i + 4]) * 16 + hex_val(s[i + 5]),
                                hex_val(s[i + 5]) < 16,
                        ;
                        lemma_hex_unique(s[i + 4], (b / 16) as nat);
                        lemma_hex_unique(s[i + 5], (b % 16) as nat);
                        assert(b < 0x20);
                        assert(s.subrange(i, next) =~= esc_byte(head));
                    }
                } else {
                    assert(!(s[i] < 0x20) && s[i] != 0x22 && s[i] != 0x5c);
                    assert(s.subrange(i, next) =~= esc_byte(head));
                }
            }
            assert(spec_esc_bytes(p.0) == esc_byte(head) + spec_esc_bytes(rest.0)) by {
                assert((seq![head] + rest.0)[0] == head);
                assert((seq![head] + rest.0).skip(1) =~= rest.0);
            }
            assert(s.subrange(i, p.1 - 1) =~= s.subrange(i, next) + s.subrange(next, p.1 - 1));
        }
    }
}

/// Strictness for strings: a successful parse consumed exactly the
/// encoding of the text it returned.
pub proof fn lemma_jdec_string_exact(s: Seq<u8>, i: int)
    ensures
        jdec_string(s, i) matches Some(p) ==> {
            &&& i < p.1 <= s.len()
            &&& s.subrange(i, p.1) == spec_enc_str(p.0)
        },
{
    if jdec_string(s, i) is Some {
        let p = jdec_string(s, i)->0;
        let content = jdec_str_content(s, i + 1)->0;
        lemma_jdec_content_exact(s, i + 1);
        vstd::utf8::decode_utf8_encode_utf8(content.0);
        assert(encode_utf8(p.0) == content.0);
        assert(s.subrange(i + 1, p.1 - 1) == spec_esc_bytes(content.0));
        assert(s.subrange(i, p.1) =~= seq![0x22u8] + spec_esc_bytes(content.0) + seq![0x22u8]);
    }
}

/// Prefix the items of a partial list parse.
pub open spec fn list_cont(prefix: Seq<Seq<char>>, r: Option<(Seq<Seq<char>>, int)>) -> Option<
    (Seq<Seq<char>>, int),
> {
    match r {
        Some(p) => Some((prefix + p.0, p.1)),
        None => None,
    }
}

/// One list parsing step: an accumulated prefix absorbs the next item.
proof fn lemma_list_cont_step(
    s: Seq<u8>,
    from: int,
    j: int,
    acc: Seq<Seq<char>>,
    t: Seq<char>,
    next: int,
)
    requires
        jdec_list_items(s, from) == list_cont(acc, jdec_list_items(s, j)),
        jdec_list_items(s, j) == list_cont(seq![t], jdec_list_items(s, next)),
    ensures
        jdec_list_items(s, from) == list_cont(acc.push(t), jdec_list_items(s, next)),
{
    match jdec_list_items(s, next) {
        Some(p) => {
            assert(acc + (seq![t] + p.0) =~= acc.push(t) + p.0);
        },
        None => {},
    }
}

/// Append the encoding of the items of `l` from `idx` on to `out`.
fn enc_list_items_into(l: &Vec<String>, idx: usize, out: &mut Vec<u8>)
    requires
        idx < l@.len(),
    ensures
        final(out)@ == old(out)@ + spec_enc_list_items(
            l@.map_values(|t: String| t@),
            idx as int,
        ),
    decreases l@.len() - idx,
{
    let item = &l[idx];
    enc_str_into(item.as_str(), out);
    if idx < l.len() - 1 {
        out.push(0x2c);
        enc_list_items_into(l, idx + 1, out);
        proof {
            assert(final(out)@ =~= old(out)@ + spec_enc_list_items(
                l@.map_values(|t: String| t@),
                idx as int,
            ));
        }
    } else {
        proof {
            assert(final(out)@ =~= old(out)@ + spec_enc_list_items(
                l@.map_values(|t: String| t@),
                idx as int,
            ));
        }
    }
}

/// Append the list encoding of `l` to `out`.
pub fn enc_list_into(l: &Vec<String>, out: &mut Vec<u8>)
    ensures
        final(out)@ == old(out)@ + spec_enc_list(l@.map_values(|t: String| t@)),
{
    out.push(0x5b);
    if l.len() > 0 {
        enc_list_items_into(l, 0, out);
    }
    out.push(0x5d);
    proof {
        if l@.len() == 0 {
            assert(spec_enc_list_items(l@.map_values(|t: String| t@), 0) =~= Seq::<u8>::empty());
        }
        assert(final(out)@ =~= old(out)@ + spec_enc_list(l@.map_values(|t: String| t@)));
    }
}

/// Parse nonempty list items at `from`, exactly as the parsing
/// specification says.
fn parse_list_items(s: &[u8], from: usize) -> (r: Option<(Vec<String>, usize)>)
    requires
        from <= s@.len(),
    ensures
        match r {
            Some(p) => jdec_list_items(s@, from as int) == Some(
                (p.0@.map_values(|t: String| t@), p.1 as int),
            ) && from < p.1 <= s@.len(),
            None => jdec_list_items(s@, from as int) is None,
        },
{
    let len = s.len();
    let mut out: Vec<String> = Vec::new();
    let mut j = from;
    proof {
        assert(out@.map_values(|t: String| t@) =~= Seq::<Seq<char>>::empty());
    }
    loop
        invariant
            from <= j <= len,
            len == s@.len(),
            jdec_list_items(s@, from as int) == list_cont(
                out@.map_values(|t: String| t@),
                jdec_list_items(s@, j as int),
            ),
        decreases len - j,
    {
        match parse_string(s, j) {
            Some((t, k)) => {
                proof {
                    lemma_jdec_string_bounds(s@, j as int);
                }
                if k < len && *vstd::slice::slice_index_get(s, k) == 0x2c {
                    proof {
                        lemma_list_cont_step(
                            s@,
                            from as int,
                            j as int,
                            out@.map_values(|q: String| q@),
                            t@,
                            k + 1,
                        );
                    }
                    let ghost old_items = out@;
                    out.push(t);
                    proof {
                        assert(out@.map_values(|q: String| q@) =~= old_items.map_values(
                            |q: String| q@,
                        ).push(t@));
                    }
                    j = k + 1;
                } else if k < len && *vstd::slice::slice_index_get(s, k) == 0x5d {
                    let ghost old_items = out@;
                    out.push(t);
                    proof {
                        assert(out@.map_values(|q: String| q@) =~= old_items.map_values(
                            |q: String| q@,
                        ).push(t@));
                        assert(old_items.map_values(|q: String| q@) + seq![t@]
                            =~= old_items.map_values(|q: String| q@).push(t@));
                    }
                    return Some((out, k + 1));
                } else {
                    return None;
                }
            },
            None => {
                return None;
            },
        }
    }
}

/// Parse a list of strings at `from`, exactly as the parsing
/// specification says.
pub fn parse_list(s: &[u8], from: usize) -> (r: Option<(Vec<String>, usize)>)
    requires
        from <= s@.len(),
    ensures
        match r {
            Some(p) => jdec_list(s@, from as int) == Some(
                (p.0@.map_values(|t: String| t@), p.1 as int),
            ) && from < p.1 <= s@.len(),
            None => jdec_list(s@, from as int) is None,
        },
{
    let len = s.len();
    if from >= len || *vstd::slice::slice_index_get(s, from) != 0x5b {
        return None;
    }
    if from + 1 < len && *vstd::slice::slice_index_get(s, from + 1) == 0x5d {
        let out: Vec<String> = Vec::new();
        proof {
            assert(out@.map_values(|t: String| t@) =~= Seq::<Seq<char>>::empty());
        }
        return Some((out, from + 2));
    }
    parse_list_items(s, from + 1)
}

/// Strictness for booleans: a successful parse consumed exactly the
/// literal of the value it returned.
pub proof fn lemma_jdec_bool_exact(s: Seq<u8>, i: int)
    ensures
        jdec_bool(s, i) matches Some(p) ==> {
            &&& i < p.1 <= s.len()
            &&& s.subrange(i, p.1) == spec_enc_bool(p.0)
        },
{
    if jdec_bool(s, i) is Some {
        let p = jdec_bool(s, i)->0;
        assert(s.subrange(i, p.1) =~= spec_enc_bool(p.0));
    }
}

/// Strictness for signed integers: a successful parse consumed exactly
/// the encoding of the value it returned.
pub proof fn lemma_jdec_i64_exact(s: Seq<u8>, i: int)
    ensures
        jdec_i64(s, i) matches Some(p) ==> {
            &&& i < p.1 <= s.len()
            &&& s.subrange(i, p.1) == spec_enc_i64(p.0 as int)
        },
{
    if jdec_i64(s, i) is Some {
        let p = jdec_i64(s, i)->0;
        if 0 <= i < s.len() && s[i] == 0x2d {
            let m = jdec_u64(s, i + 1)->0;
            lemma_jdec_u64_exact(s, i + 1);
            assert(p.0 as int == -(m.0 as int));
            assert((-(p.0 as int)) as nat == m.0 as nat);
            assert(s.subrange(i, p.1) =~= seq![0x2du8] + s.subrange(i + 1, p.1));
        } else {
            lemma_jdec_u64_exact(s, i);
        }
    }
}

/// Item encodings depend only on the items from the start position on.
proof fn lemma_enc_list_items_shift(l0: Seq<Seq<char>>, idx0: int, l1: Seq<Seq<char>>, idx1: int)
    requires
        0 <= idx0 <= l0.len(),
        0 <= idx1 <= l1.len(),
        l0.skip(idx0) == l1.skip(idx1),
    ensures
        spec_enc_list_items(l0, idx0) == spec_enc_list_items(l1, idx1),
    decreases l0.len() - idx0,
{
    assert(l0.len() - idx0 == l1.len() - idx1) by {
        assert(l0.skip(idx0).len() == l0.len() - idx0);
        assert(l1.skip(idx1).len() == l1.len() - idx1);
        assert(l0.skip(idx0).len() == l1.skip(idx1).len());
    }
    if idx0 < l0.len() {
        assert(l0[idx0] == l0.skip(idx0)[0]);
        assert(l1[idx1] == l1.skip(idx1)[0]);
        assert(l0.skip(idx0 + 1) =~= l1.skip(idx1 + 1)) by {
            assert forall|k: int| 0 <= k < l0.len() - idx0 - 1 implies #[trigger] l0.skip(
                idx0 + 1,
            )[k] == l1.skip(idx1 + 1)[k] by {
                assert(l0.skip(idx0)[k + 1] == l1.skip(idx1)[k + 1]);
            }
        }
        lemma_enc_list_items_shift(l0, idx0 + 1, l1, idx1 + 1);
    }
}

/// Strictness for list items: a successful parse consumed exactly the
/// encoding of the items it returned, plus the closing bracket.
pub proof fn lemma_jdec_list_items_exact(s: Seq<u8>, i: int)
    ensures
        jdec_list_items(s, i) matches Some(p) ==> {
            &&& p.0.len() >= 1
            &&& i < p.1 <= s.len()
            &&& i + spec_enc_list_items(p.0, 0).len() + 1 == p.1
            &&& s.subrange(i, p.1 - 1) == spec_enc_list_items(p.0, 0)
            &&& s[p.1 - 1] == 0x5d
        },
    decreases s.len() - i,
{
    if jdec_list_items(s, i) is Some {
        let p = jdec_list_items(s, i)->0;
        let first = jdec_string(s, i)->0;
        lemma_jdec_string_bounds(s, i);
        lemma_jdec_string_exact(s, i);
        if first.1 < s.len() && s[first.1] == 0x2c {
            lemma_jdec_list_items_exact(s, first.1 + 1);
            let q = jdec_list_items(s, first.1 + 1)->0;
            assert(p.0 == seq![first.0] + q.0 && p.1 == q.1);
            assert(p.0[0] == first.0);
            assert(p.0.skip(1) =~= q.0) by {
                assert forall|k: int| 0 <= k < p.0.len() - 1 implies #[trigger] p.0.skip(1)[k]
                    == q.0[k] by {
                    assert(p.0.skip(1)[k] == p.0[1 + k]);
                    assert(p.0[1 + k] == (seq![first.0] + q.0)[1 + k]);
                }
                assert(p.0.skip(1).len() == q.0.len());
            }
            assert(q.0.skip(0) =~= q.0);
            lemma_enc_list_items_shift(p.0, 1, q.0, 0);
            assert(spec_enc_list_items(p.0, 0) == spec_enc_str(first.0) + seq![0x2cu8]
                + spec_enc_list_items(p.0, 1));
            assert(s.subrange(i, p.1 - 1) =~= spec_enc_list_items(p.0, 0)) by {
                assert(s.subrange(i, first.1) == spec_enc_str(first.0));
                assert(s[first.1] == 0x2c);
                assert(s.subrange(first.1 + 1, q.1 - 1) == spec_enc_list_items(q.0, 0));
            }
        } else {
            assert(p.0 =~= seq![first.0]);
            assert(spec_enc_list_items(p.0, 0) == spec_enc_str(first.0));
            assert(s.subrange(i, p.1 - 1) == spec_enc_list_items(p.0, 0));
        }
    }
}

/// Strictness for lists: a successful parse consumed exactly the
/// encoding of the list it returned.
pub proof fn lemma_jdec_list_exact(s: Seq<u8>, i: int)
    ensures
        jdec_list(s, i) matches Some(p) ==> {
            &&& i < p.1 <= s.len()
            &&& s.subrange(i, p.1) == spec_enc_list(p.0)
        },
{
    if jdec_list(s, i) is Some {
        let p = jdec_list(s, i)->0;
        if i + 1 < s.len() && s[i + 1] == 0x5d {
            assert(spec_enc_list_items(p.0, 0) =~= Seq::<u8>::empty());
            assert(s.subrange(i, p.1) =~= spec_enc_list(p.0));
        } else {
            lemma_jdec_list_items_exact(s, i + 1);
            assert(s.subrange(i + 1, p.1 - 1) == spec_enc_list_items(p.0, 0));
            assert(s.subrange(i, p.1) =~= seq![0x5bu8] + spec_enc_list_items(p.0, 0) + seq![
                0x5du8,
            ]);
        }
    }
}

/// The JSON encoding of one field value, by its kind.
pub open spec fn spec_enc_value(v: FieldV) -> Seq<u8> {
    match v {
        FieldV::U64(n) => spec_enc_u64(n as nat),
        FieldV::I64(x) => spec_enc_i64(x as int),
        FieldV::Bool(b) => spec_enc_bool(b),
        FieldV::Text(t) => spec_enc_str(t),
        FieldV::List(l) => spec_enc_list(l),
    }
}

/// Parse one field value of the given kind at `i`.
pub open spec fn jdec_value(kind: FieldKind, s: Seq<u8>, i: int) -> Option<(FieldV, int)> {
    match kind {
        FieldKind::U64 => match jdec_u64(s, i) {
            Some(p) => Some((FieldV::U64(p.0), p.1)),
            None => None,
        },
        FieldKind::I64 => match jdec_i64(s, i) {
            Some(p) => Some((FieldV::I64(p.0), p.1)),
            None => None,
        },
        FieldKind::Bool => match jdec_bool(s, i) {
            Some(p) => Some((FieldV::Bool(p.0), p.1)),
            None => None,
        },
        FieldKind::Text => match jdec_string(s, i) {
            Some(p) => Some((FieldV::Text(p.0), p.1)),
            None => None,
        },
        FieldKind::List => match jdec_list(s, i) {
            Some(p) => Some((FieldV::List(p.0), p.1)),
            None => None,
        },
    }
}

/// Parsing a field value's encoding embedded at `i`, followed by a
/// separator or closing byte (or the end), yields the value.
pub proof fn lemma_jdec_enc_value(s: Seq<u8>, i: int, v: FieldV)
    requires
        0 <= i,
        i + spec_enc_value(v).len() <= s.len(),
        s.subrange(i, i + spec_enc_value(v).len() as int) == spec_enc_value(v),
        i + spec_enc_value(v).len() == s.len() || s[i + spec_enc_value(v).len()] == 0x2c || s[i
            + spec_enc_value(v).len()] == 0x7d || s[i + spec_enc_value(v).len()] == 0x5d,
    ensures
        jdec_value(kind_of(v), s, i) == Some((v, i + spec_enc_value(v).len() as int)),
{
    match v {
        FieldV::U64(n) => {
            lemma_jdec_enc_u64(s, i, n);
        },
        FieldV::I64(x) => {
            lemma_jdec_enc_i64(s, i, x);
        },
        FieldV::Bool(b) => {
            lemma_jdec_enc_bool(s, i, b);
        },
        FieldV::Text(t) => {
            lemma_jdec_enc_str(s, i, t);
        },
        FieldV::List(l) => {
            lemma_jdec_enc_list(s, i, l);
        },
    }
}

/// The encoding of the fields of `r` from `idx` on: quoted name, colon,
/// value, joined with commas.
pub open spec fn spec_enc_fields(r: RecordV, idx: int) -> Seq<u8>
    decreases r.len() - idx,
{
    if idx < 0 || idx >= r.len() {
        Seq::empty()
    } else if idx == r.len() - 1 {
        spec_enc_str(r[idx].0) + seq![0x3au8] + spec_enc_value(r[idx].1)
    } else {
        spec_enc_str(r[idx].0) + seq![0x3au8] + spec_enc_value(r[idx].1) + seq![0x2cu8]
            + spec_enc_fields(r, idx + 1)
    }
}

/// The JSON encoding of a record: an object with the fields in order.
pub open spec fn spec_enc_record(r: RecordV) -> Seq<u8> {
    if r.len() == 0 {
        seq![0x7bu8, 0x7du8]
    } else {
        seq![0x7bu8] + spec_enc_fields(r, 0) + seq![0x7du8]
    }
}

/// Parse the fields a schema prescribes from `fidx` on, up to and
/// including the closing brace.  Field names must match the schema
/// exactly, in order.
pub open spec fn jdec_fields(schema: SchemaV, fidx: int, s: Seq<u8>, i: int) -> Option<
    (RecordV, int),
>
    decreases schema.len() - fidx,
{
    if fidx < 0 || fidx >= schema.len() {
        None
    } else {
        match jdec_string(s, i) {
            Some(p) => if p.0 == schema[fidx].0 && p.1 < s.len() && s[p.1] == 0x3a {
                match jdec_value(schema[fidx].1, s, p.1 + 1) {
                    Some(q) => if fidx == schema.len() - 1 {
                        if q.1 < s.len() && s[q.1] == 0x7d {
                            Some((seq![(p.0, q.0)], q.1 + 1))
                        } else {
                            None
                        }
                    } else {
                        if q.1 < s.len() && s[q.1] == 0x2c {
                            match jdec_fields(schema, fidx + 1, s, q.1 + 1) {
                                Some(w) => Some((seq![(p.0, q.0)] + w.0, w.1)),
                                None => None,
                            }
                        } else {
                            None
                        }
                    },
                    None => None,
                }
            } else {
                None
            },
            None => None,
        }
    }
}

/// Parse a record against a schema at `i`: braces around the schema's
/// fields, in order.
pub open spec fn jdec_record(schema: SchemaV, s: Seq<u8>, i: int) -> Option<(RecordV, int)> {
    if 0 <= i < s.len() && s[i] == 0x7b {
        if schema.len() == 0 {
            if i + 1 < s.len() && s[i + 1] == 0x7d {
                Some((Seq::empty(), i + 2))
            } else {
                None
            }
        } else {
            jdec_fields(schema, 0, s, i + 1)
        }
    } else {
        None
    }
}

/// Parsing the encoded fields of `r` from `fidx` on, followed by the
/// closing brace, yields exactly those fields.
pub proof fn lemma_jdec_enc_fields(s: Seq<u8>, i: int, schema: SchemaV, r: RecordV, fidx: int)
    requires
        record_matches(schema, r),
        0 <= i,
        0 <= fidx < r.len(),
        i + spec_enc_fields(r, fidx).len() + 1 <= s.len(),
        s.subrange(i, i + spec_enc_fields(r, fidx).len() as int) == spec_enc_fields(r, fidx),
        s[i + spec_enc_fields(r, fidx).len()] == 0x7d,
    ensures
        jdec_fields(schema, fidx, s, i) == Some(
            (r.skip(fidx), i + spec_enc_fields(r, fidx).len() + 1),
        ),
    decreases r.len() - fidx,
{
    let e = spec_enc_fields(r, fidx);
    let name_enc = spec_enc_str(r[fidx].0);
    let value_enc = spec_enc_value(r[fidx].1);
    assert forall|k: int| 0 <= k < e.len() implies s[i + k] == e[k] by {
        assert(s.subrange(i, i + e.len() as int)[k] == s[i + k]);
    }
    let head = name_enc + seq![0x3au8] + value_enc;
    assert forall|k: int| 0 <= k < name_enc.len() implies s[i + k] == name_enc[k] by {
        assert(e[k] == name_enc[k]);
    }
    assert(s.subrange(i, i + name_enc.len() as int) =~= name_enc);
    lemma_jdec_enc_str(s, i, r[fidx].0);
    let ci = i + name_enc.len();
    assert(s[ci] == e[name_enc.len() as int]);
    assert(e[name_enc.len() as int] == 0x3a);
    let vi = ci + 1;
    assert forall|k: int| 0 <= k < value_enc.len() implies s[vi + k] == value_enc[k] by {
        assert(e[name_enc.len() + 1 + k] == value_enc[k]);
        assert(s[i + (name_enc.len() + 1 + k)] == e[name_enc.len() + 1 + k]);
    }
    assert(s.subrange(vi, vi + value_enc.len() as int) =~= value_enc);
    let ve = vi + value_enc.len();
    assert(kind_of(r[fidx].1) == schema[fidx].1);
    assert(r[fidx].0 == schema[fidx].0);
    if fidx == r.len() - 1 {
        assert(e == head);
        assert(s[ve] == 0x7d);
        lemma_jdec_enc_value(s, vi, r[fidx].1);
        assert(seq![(r[fidx].0, r[fidx].1)] =~= r.skip(fidx));
        assert(jdec_fields(schema, fidx, s, i) == Some((r.skip(fidx), ve + 1)));
    } else {
        let rest = spec_enc_fields(r, fidx + 1);
        assert(e == head + seq![0x2cu8] + rest);
        assert(s[ve] == e[head.len() as int]);
        assert(e[head.len() as int] == 0x2c);
        lemma_jdec_enc_value(s, vi, r[fidx].1);
        assert forall|k: int| 0 <= k < rest.len() implies s[ve + 1 + k] == rest[k] by {
            assert(e[head.len() + 1 + k] == rest[k]);
            assert(s[i + (head.len() + 1 + k)] == e[head.len() + 1 + k]);
        }
        assert(s.subrange(ve + 1, ve + 1 + rest.len() as int) =~= rest);
        assert(s[ve + 1 + rest.len()] == s[i + e.len()]);
        lemma_jdec_enc_fields(s, ve + 1, schema, r, fidx + 1);
        assert(seq![(r[fidx].0, r[fidx].1)] + r.skip(fidx + 1) =~= r.skip(fidx));
    }
}

/// Parsing a record's encoding embedded at `i` against a schema it
/// matches yields the record.
pub proof fn lemma_jdec_enc_record(s: Seq<u8>, i: int, schema: SchemaV, r: RecordV)
    requires
        record_matches(schema, r),
        0 <= i,
        i + spec_enc_record(r).len() <= s.len(),
        s.subrange(i, i + spec_enc_record(r).len() as int) == spec_enc_record(r),
    ensures
        jdec_record(schema, s, i) == Some((r, i + spec_enc_record(r).len() as int)),
{
    let e = spec_enc_record(r);
    assert forall|k: int| 0 <= k < e.len() implies s[i + k] == e[k] by {
        assert(s.subrange(i, i + e.len() as int)[k] == s[i + k]);
    }
    assert(s[i + 0] == e[0]);
    assert(e[0] == 0x7b);
    if r.len() == 0 {
        assert(s[i + 1] == e[1]);
        assert(e[1] == 0x7d);
        assert(r =~= Seq::<(Seq<char>, FieldV)>::empty());
    } else {
        let fields = spec_enc_fields(r, 0);
        assert forall|k: int| 0 <= k < fields.len() implies s[i + 1 + k] == fields[k] by {
            assert(e[1 + k] == fields[k]);
            assert(s[i + (1 + k)] == e[1 + k]);
        }
        assert(s.subrange(i + 1, i + 1 + fields.len() as int) =~= fields);
        assert(s[i + 1 + fields.len()] == e[e.len() - 1]);
        assert(e[e.len() - 1] == 0x7d);
        lemma_jdec_enc_fields(s, i + 1, schema, r, 0);
        assert(r.skip(0) =~= r);
    }
}

/// Append the encoding of one field value to `out`.
pub fn enc_value_into(v: &FieldValue, out: &mut Vec<u8>)
    ensures
        final(out)@ == old(out)@ + spec_enc_value(v@),
{
    match v {
        FieldValue::U64(n) => enc_u64_into(*n, out),
        FieldValue::I64(x) => enc_i64_into(*x, out),
        FieldValue::Bool(b) => enc_bool_into(*b, out),
        FieldValue::Text(t) => enc_str_into(t.as_str(), out),
        FieldValue::List(l) => enc_list_into(l, out),
    }
}

/// The view of a record's field vector.
pub open spec fn fields_view(fields: Seq<(String, FieldValue)>) -> RecordV {
    fields.map_values(|p: (String, FieldValue)| (p.0@, p.1@))
}

/// Append the encoding of the fields from `idx` on to `out`.
fn enc_fields_into(fields: &Vec<(String, FieldValue)>, idx: usize, out: &mut Vec<u8>)
    requires
        idx < fields@.len(),
    ensures
        final(out)@ == old(out)@ + spec_enc_fields(fields_view(fields@), idx as int),
    decreases fields@.len() - idx,
{
    let entry = &fields[idx];
    enc_str_into(entry.0.as_str(), out);
    out.push(0x3a);
    enc_value_into(&entry.1, out);
    if idx < fields.len() - 1 {
        out.push(0x2c);
        enc_fields_into(fields, idx + 1, out);
        proof {
            assert(final(out)@ =~= old(out)@ + spec_enc_fields(fields_view(fields@), idx as int));
        }
    } else {
        proof {
            assert(final(out)@ =~= old(out)@ + spec_enc_fields(fields_view(fields@), idx as int));
        }
    }
}

/// The JSON encoding of a record, as fresh bytes.
pub fn enc_record(rec: &Record) -> (r: Vec<u8>)
    ensures
        r@ == spec_enc_record(rec@),
{
    let mut out: Vec<u8> = Vec::new();
    out.push(0x7b);
    if rec.fields.len() > 0 {
        enc_fields_into(&rec.fields, 0, &mut out);
    }
    out.push(0x7d);
    proof {
        assert(rec@ == fields_view(rec.fields@));
        assert(out@ =~= spec_enc_record(rec@));
    }
    out
}

/// Parse one field value of the given kind at `from`, exactly as the
/// parsing specification says.
pub fn parse_value(kind: FieldKind, s: &[u8], from: usize) -> (r: Option<(FieldValue, usize)>)
    requires
        from <= s@.len(),
    ensures
        match r {
            Some(p) => jdec_value(kind, s@, from as int) == Some((p.0@, p.1 as int)) && from < p.1
                <= s@.len(),
            None => jdec_value(kind, s@, from as int) is None,
        },
{
    match kind {
        FieldKind::U64 => match parse_u64(s, from) {
            Some((n, j)) => Some((FieldValue::U64(n), j)),
            None => None,
        },
        FieldKind::I64 => match parse_i64(s, from) {
            Some((x, j)) => Some((FieldValue::I64(x), j)),
            None => None,
        },
        FieldKind::Bool => match parse_bool(s, from) {
            Some((b, j)) => Some((FieldValue::Bool(b), j)),
            None => None,
        },
        FieldKind::Text => match parse_string(s, from) {
            Some((t, j)) => Some((FieldValue::Text(t), j)),
            None => None,
        },
        FieldKind::List => match parse_list(s, from) {
            Some((l, j)) => Some((FieldValue::List(l), j)),
            None => None,
        },
    }
}

/// Prefix the fields of a partial record parse.
pub open spec fn record_cont(prefix: RecordV, r: Option<(RecordV, int)>) -> Option<(RecordV, int)> {
    match r {
        Some(p) => Some((prefix + p.0, p.1)),
        None => None,
    }
}

/// One record parsing step: an accumulated prefix absorbs the next
/// field.
proof fn lemma_record_cont_step(
    schema: SchemaV,
    s: Seq<u8>,
    from: int,
    fidx: int,
    j: int,
    acc: RecordV,
    f: (Seq<char>, FieldV),
    next: int,
)
    requires
        jdec_fields(schema, 0, s, from) == record_cont(acc, jdec_fields(schema, fidx, s, j)),
        jdec_fields(schema, fidx, s, j) == record_cont(
            seq![f],
            jdec_fields(schema, fidx + 1, s, next),
        ),
    ensures
        jdec_fields(schema, 0, s, from) == record_cont(
            acc.push(f),
            jdec_fields(schema, fidx + 1, s, next),
        ),
{
    match jdec_fields(schema, fidx + 1, s, next) {
        Some(p) => {
            assert(acc + (seq![f] + p.0) =~= acc.push(f) + p.0);
        },
        None => {},
    }
}

/// Parse the fields a nonempty schema prescribes, exactly as the
/// parsing specification says.
fn parse_fields(schema: &Schema, s: &[u8], from: usize) -> (r: Option<
    (Vec<(String, FieldValue)>, usize),
>)
    requires
        from <= s@.len(),
        schema@.len() > 0,
    ensures
        match r {
            Some(p) => jdec_fields(schema@, 0, s@, from as int) == Some(
                (fields_view(p.0@), p.1 as int),
            ) && from < p.1 <= s@.len(),
            None => jdec_fields(schema@, 0, s@, from as int) is None,
        },
{
    let len = s.len();
    let mut out: Vec<(String, FieldValue)> = Vec::new();
    let mut fidx: usize = 0;
    let mut j = from;
    proof {
        assert(fields_view(out@) =~= Seq::<(Seq<char>, FieldV)>::empty());
    }
    loop
        invariant
            from <= j <= len,
            0 <= fidx < schema@.len(),
            len == s@.len(),
            jdec_fields(schema@, 0, s@, from as int) == record_cont(
                fields_view(out@),
                jdec_fields(schema@, fidx as int, s@, j as int),
            ),
        decreases schema@.len() - fidx,
    {
        let entry_name: &String = &schema.fields[fidx].0;
        let entry_kind: FieldKind = schema.fields[fidx].1;
        proof {
            assert(schema@[fidx as int].0 == schema.fields@[fidx as int].0@);
            assert(schema@[fidx as int].1 == schema.fields@[fidx as int].1);
        }
        match parse_string(s, j) {
            Some((nm, k)) => {
                if !(nm == *entry_name) {
                    return None;
                }
                if !(k < len && *vstd::slice::slice_index_get(s, k) == 0x3a) {
                    return None;
                }
                match parse_value(entry_kind, s, k + 1) {
                    Some((v, m)) => {
                        if fidx == schema.fields.len() - 1 {
                            if m < len && *vstd::slice::slice_index_get(s, m) == 0x7d {
                                let ghost old_fields = out@;
                                out.push((nm, v));
                                proof {
                                    assert(fields_view(out@) =~= fields_view(old_fields).push(
                                        (nm@, v@),
                                    ));
                                    assert(fields_view(old_fields) + seq![(nm@, v@)]
                                        =~= fields_view(old_fields).push((nm@, v@)));
                                }
                                return Some((out, m + 1));
                            } else {
                                return None;
                            }
                        } else {
                            if m < len && *vstd::slice::slice_index_get(s, m) == 0x2c {
                                proof {
                                    lemma_record_cont_step(
                                        schema@,
                                        s@,
                                        from as int,
                                        fidx as int,
                                        j as int,
                                        fields_view(out@),
                                        (nm@, v@),
                                        m + 1,
                                    );
                                }
                                let ghost old_fields = out@;
                                out.push((nm, v));
                                proof {
                                    assert(fields_view(out@) =~= fields_view(old_fields).push(
                                        (nm@, v@),
                                    ));
                                }
                                fidx = fidx + 1;
                                j = m + 1;
                            } else {
                                return None;
                            }
                        }
                    },
                    None => {
                        return None;
                    },
                }
            },
            None => {
                return None;
            },
        }
    }
}

/// Parse a record against a schema at `from`, exactly as the parsing
/// specification says.
pub fn parse_record(schema: &Schema, s: &[u8], from: usize) -> (r: Option<(Record, usize)>)
    requires
        from <= s@.len(),
    ensures
        match r {
            Some(p) => jdec_record(schema@, s@, from as int) == Some((p.0@, p.1 as int)) && from
                < p.1 <= s@.len(),
            None => jdec_record(schema@, s@, from as int) is None,
        },
{
    let len = s.len();
    if from >= len || *vstd::slice::slice_index_get(s, from) != 0x7b {
        return None;
    }
    if schema.fields.len() == 0 {
        if from + 1 < len && *vstd::slice::slice_index_get(s, from + 1) == 0x7d {
            let rec = Record { fields: Vec::new() };
            proof {
                assert(rec@ =~= Seq::<(Seq<char>, FieldV)>::empty());
            }
            return Some((rec, from + 2));
        } else {
            return None;
        }
    }
    match parse_fields(schema, s, from + 1) {
        Some((fields, end)) => {
            let rec = Record { fields };
            proof {
                assert(rec@ == fields_view(rec.fields@));
            }
            Some((rec, end))
        },
        None => None,
    }
}

/// Strictness for field values: a successful parse consumed exactly
/// the encoding of the value it returned, which has the requested
/// kind.
pub proof fn lemma_jdec_value_exact(kind: FieldKind, s: Seq<u8>, i: int)
    ensures
        jdec_value(kind, s, i) matches Some(p) ==> {
            &&& i < p.1 <= s.len()
            &&& s.subrange(i, p.1) == spec_enc_value(p.0)
            &&& kind_of(p.0) == kind
        },
{
    match kind {
        FieldKind::U64 => {
            lemma_jdec_u64_exact(s, i);
        },
        FieldKind::I64 => {
            lemma_jdec_i64_exact(s, i);
        },
        FieldKind::Bool => {
            lemma_jdec_bool_exact(s, i);
        },
        FieldKind::Text => {
            lemma_jdec_string_exact(s, i);
        },
        FieldKind::List => {
            lemma_jdec_list_exact(s, i);
        },
    }
}

/// Field encodings depend only on the fields from the start position
/// on.
proof fn lemma_enc_fields_shift(r0: RecordV, idx0: int, r1: RecordV, idx1: int)
    requires
        0 <= idx0 <= r0.len(),
        0 <= idx1 <= r1.len(),
        r0.skip(idx0) == r1.skip(idx1),
    ensures
        spec_enc_fields(r0, idx0) == spec_enc_fields(r1, idx1),
    decreases r0.len() - idx0,
{
    assert(r0.len() - idx0 == r1.len() - idx1) by {
        assert(r0.skip(idx0).len() == r0.len() - idx0);
        assert(r1.skip(idx1).len() == r1.len() - idx1);
        assert(r0.skip(idx0).len() == r1.skip(idx1).len());
    }
    if idx0 < r0.len() {
        assert(r0[idx0] == r0.skip(idx0)[0]);
        assert(r1[idx1] == r1.skip(idx1)[0]);
        assert(r0.skip(idx0 + 1) =~= r1.skip(idx1 + 1)) by {
            assert forall|k: int| 0 <= k < r0.len() - idx0 - 1 implies #[trigger] r0.skip(
                idx0 + 1,
            )[k] == r1.skip(idx1 + 1)[k] by {
                assert(r0.skip(idx0)[k + 1] == r1.skip(idx1)[k + 1]);
            }
        }
        lemma_enc_fields_shift(r0, idx0 + 1, r1, idx1 + 1);
    }
}

/// Strictness for schema-prescribed fields: a successful parse
/// consumed exactly the encoding of the fields it returned, plus the
/// closing brace.
pub proof fn lemma_jdec_fields_exact(schema: SchemaV, fidx: int, s: Seq<u8>, i: int)
    ensures
        jdec_fields(schema, fidx, s, i) matches Some(p) ==> {
            &&& p.0.len() >= 1
            &&& i < p.1 <= s.len()
            &&& i + spec_enc_fields(p.0, 0).len() + 1 == p.1
            &&& s.subrange(i, p.1 - 1) == spec_enc_fields(p.0, 0)
            &&& s[p.1 - 1] == 0x7d
        },
    decreases schema.len() - fidx,
{
    if jdec_fields(schema, fidx, s, i) is Some {
        let p = jdec_fields(schema, fidx, s, i)->0;
        let nm = jdec_string(s, i)->0;
        lemma_jdec_string_bounds(s, i);
        lemma_jdec_string_exact(s, i);
        let v = jdec_value(schema[fidx].1, s, nm.1 + 1)->0;
        lemma_jdec_value_exact(schema[fidx].1, s, nm.1 + 1);
        let head = spec_enc_str(nm.0) + seq![0x3au8] + spec_enc_value(v.0);
        assert(s.subrange(i, v.1) =~= head) by {
            assert(s.subrange(i, nm.1) == spec_enc_str(nm.0));
            assert(s[nm.1] == 0x3a);
            assert(s.subrange(nm.1 + 1, v.1) == spec_enc_value(v.0));
        }
        if fidx == schema.len() - 1 {
            assert(p.0 =~= seq![(nm.0, v.0)]);
            assert(spec_enc_fields(p.0, 0) == head);
            assert(s.subrange(i, p.1 - 1) == spec_enc_fields(p.0, 0));
        } else {
            lemma_jdec_fields_exact(schema, fidx + 1, s, v.1 + 1);
            let q = jdec_fields(schema, fidx + 1, s, v.1 + 1)->0;
            assert(p.0 == seq![(nm.0, v.0)] + q.0 && p.1 == q.1);
            assert(p.0[0] == (nm.0, v.0));
            assert(p.0.skip(1) =~= q.0) by {
                assert forall|k: int| 0 <= k < p.0.len() - 1 implies #[trigger] p.0.skip(1)[k]
                    == q.0[k] by {
                    assert(p.0.skip(1)[k] == p.0[1 + k]);
                    assert(p.0[1 + k] == (seq![(nm.0, v.0)] + q.0)[1 + k]);
                }
                assert(p.0.skip(1).len() == q.0.len());
            }
            assert(q.0.skip(0) =~= q.0);
            lemma_enc_fields_shift(p.0, 1, q.0, 0);
            assert(spec_enc_fields(p.0, 0) == head + seq![0x2cu8] + spec_enc_fields(p.0, 1));
            assert(s.subrange(i, p.1 - 1) =~= spec_enc_fields(p.0, 0)) by {
                assert(s[v.1] == 0x2c);
                assert(s.subrange(v.1 + 1, q.1 - 1) == spec_enc_fields(q.0, 0));
            }
        }
    }
}

/// Strictness for records: a successful parse consumed exactly the
/// encoding of the record it returned.  With the round trip, parsing
/// is the exact left inverse of encoding: against a given schema, a
/// record parses out of a buffer exactly when the buffer is that
/// record's canonical encoding.
pub proof fn lemma_jdec_record_exact(schema: SchemaV, s: Seq<u8>, i: int)
    ensures
        jdec_record(schema, s, i) matches Some(p) ==> {
            &&& i < p.1 <= s.len()
            &&& s.subrange(i, p.1) == spec_enc_record(p.0)
        },
{
    if jdec_record(schema, s, i) is Some {
        let p = jdec_record(schema, s, i)->0;
        if schema.len() == 0 {
            assert(p.0.len() == 0);
            assert(s.subrange(i, p.1) =~= spec_enc_record(p.0));
        } else {
            lemma_jdec_fields_exact(schema, 0, s, i + 1);
            assert(s.subrange(i + 1, p.1 - 1) == spec_enc_fields(p.0, 0));
            assert(p.0.len() >= 1);
            assert(s.subrange(i, p.1) =~= seq![0x7bu8] + spec_enc_fields(p.0, 0) + seq![0x7du8]);
        }
    }
}

/// Schema-prescribed parses match the schema: right length, names and
/// kinds.
pub proof fn lemma_jdec_fields_matches(schema: SchemaV, fidx: int, s: Seq<u8>, i: int)
    ensures
        jdec_fields(schema, fidx, s, i) matches Some(p) ==> {
            &&& p.0.len() == schema.len() - fidx
            &&& forall|k: int|
                0 <= k < p.0.len() ==> p.0[k].0 == schema[fidx + k].0 && kind_of(
                    #[trigger] p.0[k].1,
                ) == schema[fidx + k].1
        },
    decreases schema.len() - fidx,
{
    if 0 <= fidx < schema.len() {
        match jdec_string(s, i) {
            Some(p) => {
                if p.0 == schema[fidx].0 && p.1 < s.len() && s[p.1] == 0x3a {
                    match jdec_value(schema[fidx].1, s, p.1 + 1) {
                        Some(q) => {
                            if fidx != schema.len() - 1 {
                                lemma_jdec_fields_matches(schema, fidx + 1, s, q.1 + 1);
                            }
                        },
                        None => {},
                    }
                }
            },
            None => {},
        }
    }
}

/// A record parsed against a schema matches that schema.
pub proof fn lemma_jdec_record_matches(schema: SchemaV, s: Seq<u8>, i: int)
    ensures
        jdec_record(schema, s, i) matches Some(p) ==> record_matches(schema, p.0),
{
    lemma_jdec_fields_matches(schema, 0, s, i + 1);
}

/// Round trip for the JSON record format: parsing the encoding of any
/// record, against any schema the record matches, yields exactly the
/// record and consumes the whole encoding.
pub proof fn lemma_json_round_trip(schema: SchemaV, r: RecordV)
    requires
        record_matches(schema, r),
    ensures
        jdec_record(schema, spec_enc_record(r), 0) == Some(
            (r, spec_enc_record(r).len() as int),
        ),
{
    let e = spec_enc_record(r);
    assert(e.subrange(0, e.len() as int) =~= e);
    lemma_jdec_enc_record(e, 0, schema, r);
}

} // verus!
