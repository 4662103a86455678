//! The verified zero-copy archive format.
//!
//! A record's field values are laid out so that each one can be read at
//! a fixed offset from the buffer start, without a decode pass: a
//! four-byte field count, then one nine-byte slot per field (a tag byte
//! and an eight-byte payload), then the string heap.  A string slot's
//! payload holds the offset and length of its bytes in the heap; the
//! heap carries the strings in field order and fills the buffer exactly.
//! Field names are not stored: like a compiled schema, the writer and
//! the reader agree on the field order.
//!
//! Validation checks every offset, tag and string before a view is
//! handed out; unchecked access skips those checks and is sound exactly
//! when the buffer is a well-formed archive, which is the caller's
//! obligation and is stated as a precondition.

use vstd::prelude::*;
use vstd::utf8::{valid_utf8, encode_utf8, decode_utf8};
use crate::storage::record::{FieldV, FieldValue, Record};
use crate::storage::json::fields_view;
use crate::storage::codec::str_from_utf8;
use crate::storage::error::StorageError;
use vstd::string::StringSliceAdditionalSpecFns;
use vstd::string::StrSliceExecFns;

verus! {

/// Whether the archive format can hold this value: string lists are not
/// supported.
pub open spec fn arch_value_ok(v: FieldV) -> bool {
    !(v is List)
}

/// The heap bytes one value contributes.
pub open spec fn heap_contrib(v: FieldV) -> Seq<u8> {
    match v {
        FieldV::Text(t) => encode_utf8(t),
        _ => Seq::empty(),
    }
}

/// The length of the heap built from the first `idx` values.
pub open spec fn heap_len_of(values: Seq<FieldV>, idx: int) -> nat
    decreases idx,
{
    if idx <= 0 {
        0
    } else {
        heap_len_of(values, idx - 1) + heap_contrib(values[idx - 1]).len()
    }
}

/// Where the slots end and the heap begins.
pub open spec fn heap_base(n: nat) -> nat {
    4 + 9 * n
}

/// The nine-byte slot for value `idx`: a tag byte and the payload.
pub open spec fn arch_slot(values: Seq<FieldV>, idx: int) -> Seq<u8> {
    match values[idx] {
        FieldV::U64(x) => seq![0u8] + vstd::bytes::spec_u64_to_le_bytes(x),
        FieldV::I64(x) => seq![1u8] + vstd::bytes::spec_u64_to_le_bytes(x as u64),
        FieldV::Bool(b) => seq![
            2u8,
            (if b {
                1u8
            } else {
                0u8
            }),
            0u8,
            0u8,
            0u8,
            0u8,
            0u8,
            0u8,
            0u8,
        ],
        FieldV::Text(t) => seq![3u8] + vstd::bytes::spec_u32_to_le_bytes(
            (heap_base(values.len()) + heap_len_of(values, idx)) as u32,
        ) + vstd::bytes::spec_u32_to_le_bytes(encode_utf8(t).len() as u32),
        FieldV::List(_) => Seq::empty(),
    }
}

/// The slots for the values from `idx` on.
pub open spec fn arch_slots(values: Seq<FieldV>, idx: int) -> Seq<u8>
    decreases values.len() - idx,
{
    if idx < 0 || idx >= values.len() {
        Seq::empty()
    } else {
        arch_slot(values, idx) + arch_slots(values, idx + 1)
    }
}

/// The heap for the values from `idx` on.
pub open spec fn arch_heap(values: Seq<FieldV>, idx: int) -> Seq<u8>
    decreases values.len() - idx,
{
    if idx < 0 || idx >= values.len() {
        Seq::empty()
    } else {
        heap_contrib(values[idx]) + arch_heap(values, idx + 1)
    }
}

/// Whether the archive format can encode these values: every value
/// supported, and the whole buffer addressable with 32-bit offsets.
pub open spec fn spec_arch_encodable(values: Seq<FieldV>) -> bool {
    &&& forall|i: int| 0 <= i < values.len() ==> arch_value_ok(#[trigger] values[i])
    &&& heap_base(values.len()) + heap_len_of(values, values.len() as int) <= u32::MAX
}

/// The archive encoding: field count, slots, heap.
pub open spec fn spec_arch_enc(values: Seq<FieldV>) -> Seq<u8> {
    vstd::bytes::spec_u32_to_le_bytes(values.len() as u32) + arch_slots(values, 0) + arch_heap(
        values,
        0,
    )
}

/// The field count a buffer claims.
pub open spec fn arch_n(s: Seq<u8>) -> nat {
    vstd::bytes::spec_u32_from_le_bytes(s.subrange(0, 4)) as nat
}

/// The tag byte of slot `i`.
pub open spec fn arch_tag(s: Seq<u8>, i: int) -> u8 {
    s[4 + 9 * i]
}

/// The payload of slot `i`, read as a little-endian `u64`.
pub open spec fn arch_payload_u64(s: Seq<u8>, i: int) -> u64 {
    vstd::bytes::spec_u64_from_le_bytes(s.subrange(4 + 9 * i + 1, 4 + 9 * i + 9))
}

/// The heap offset a string slot claims.
pub open spec fn arch_text_off(s: Seq<u8>, i: int) -> nat {
    vstd::bytes::spec_u32_from_le_bytes(s.subrange(4 + 9 * i + 1, 4 + 9 * i + 5)) as nat
}

/// The string length a string slot claims.
pub open spec fn arch_text_len(s: Seq<u8>, i: int) -> nat {
    vstd::bytes::spec_u32_from_le_bytes(s.subrange(4 + 9 * i + 5, 4 + 9 * i + 9)) as nat
}

/// The heap bytes the slots before `i` claim.
pub open spec fn heap_before(s: Seq<u8>, i: int) -> nat
    decreases i,
{
    if i <= 0 {
        0
    } else {
        heap_before(s, i - 1) + (if arch_tag(s, i - 1) == 3 {
            arch_text_len(s, i - 1)
        } else {
            0
        })
    }
}

/// Whether slot `i` is well-formed: a known tag; a canonical boolean
/// payload; a string whose offset is exactly where the heap walk puts
/// it, whose bytes lie in the buffer and are valid UTF-8.
pub open spec fn wf_slot(s: Seq<u8>, i: int) -> bool {
    let tag = arch_tag(s, i);
    if tag == 0 || tag == 1 {
        true
    } else if tag == 2 {
        &&& (s[4 + 9 * i + 1] == 0 || s[4 + 9 * i + 1] == 1)
        &&& s[4 + 9 * i + 2] == 0
        &&& s[4 + 9 * i + 3] == 0
        &&& s[4 + 9 * i + 4] == 0
        &&& s[4 + 9 * i + 5] == 0
        &&& s[4 + 9 * i + 6] == 0
        &&& s[4 + 9 * i + 7] == 0
        &&& s[4 + 9 * i + 8] == 0
    } else if tag == 3 {
        &&& arch_text_off(s, i) == heap_base(arch_n(s)) + heap_before(s, i)
        &&& arch_text_off(s, i) + arch_text_len(s, i) <= s.len()
        &&& valid_utf8(
            s.subrange(
                arch_text_off(s, i) as int,
                (arch_text_off(s, i) + arch_text_len(s, i)) as int,
            ),
        )
    } else {
        false
    }
}

/// Whether a buffer is a well-formed archive: the slots fit, every slot
/// is well-formed, and the heap fills the rest of the buffer exactly.
pub open spec fn wf_archive(s: Seq<u8>) -> bool {
    &&& 4 <= s.len() <= u32::MAX
    &&& heap_base(arch_n(s)) <= s.len()
    &&& forall|i: int| 0 <= i < arch_n(s) ==> #[trigger] wf_slot(s, i)
    &&& heap_base(arch_n(s)) + heap_before(s, arch_n(s) as int) == s.len()
}

/// The value archived in slot `i` of a well-formed buffer.
pub open spec fn arch_field(s: Seq<u8>, i: int) -> FieldV {
    let tag = arch_tag(s, i);
    if tag == 0 {
        FieldV::U64(arch_payload_u64(s, i))
    } else if tag == 1 {
        FieldV::I64(arch_payload_u64(s, i) as i64)
    } else if tag == 2 {
        FieldV::Bool(s[4 + 9 * i + 1] == 1)
    } else {
        FieldV::Text(
            decode_utf8(
                s.subrange(arch_text_off(s, i) as int, (arch_text_off(s, i) + arch_text_len(s, i)) as int),
            ),
        )
    }
}

/// Casting a signed value through its unsigned bit pattern preserves
/// it.
pub proof fn lemma_i64_bit_round_trip(x: i64)
    ensures
        ((x as u64) as i64) == x,
{
    assert(((x as u64) as i64) == x) by (bit_vector);
}

/// An encodable slot is nine bytes.
pub proof fn lemma_arch_slot_len(values: Seq<FieldV>, idx: int)
    requires
        0 <= idx < values.len(),
        arch_value_ok(values[idx]),
    ensures
        arch_slot(values, idx).len() == 9,
{
    vstd::bytes::lemma_auto_spec_u64_to_from_le_bytes();
    vstd::bytes::lemma_auto_spec_u32_to_from_le_bytes();
}

/// The slots region of an encodable suffix is nine bytes per value.
pub proof fn lemma_arch_slots_len(values: Seq<FieldV>, idx: int)
    requires
        0 <= idx <= values.len(),
        forall|i: int| 0 <= i < values.len() ==> arch_value_ok(#[trigger] values[i]),
    ensures
        arch_slots(values, idx).len() == 9 * (values.len() - idx),
    decreases values.len() - idx,
{
    if idx < values.len() {
        lemma_arch_slot_len(values, idx);
        lemma_arch_slots_len(values, idx + 1);
    }
}

/// The heap of a suffix holds exactly the bytes the prefix walk leaves.
pub proof fn lemma_arch_heap_len(values: Seq<FieldV>, idx: int)
    requires
        0 <= idx <= values.len(),
    ensures
        arch_heap(values, idx).len() + heap_len_of(values, idx) == heap_len_of(
            values,
            values.len() as int,
        ),
    decreases values.len() - idx,
{
    if idx < values.len() {
        lemma_arch_heap_len(values, idx + 1);
    }
}

/// Slot `i`'s bytes within the slots region of any suffix that covers
/// it.
pub proof fn lemma_arch_slots_index(values: Seq<FieldV>, idx: int, i: int)
    requires
        0 <= idx <= i < values.len(),
        forall|k: int| 0 <= k < values.len() ==> arch_value_ok(#[trigger] values[k]),
    ensures
        arch_slots(values, idx).subrange(9 * (i - idx), 9 * (i - idx) + 9) == arch_slot(values, i),
    decreases i - idx,
{
    lemma_arch_slot_len(values, idx);
    lemma_arch_slots_len(values, idx + 1);
    if idx == i {
        assert(arch_slots(values, idx).subrange(0, 9) =~= arch_slot(values, idx));
    } else {
        lemma_arch_slots_index(values, idx + 1, i);
        assert(arch_slots(values, idx).subrange(9 * (i - idx), 9 * (i - idx) + 9) =~= arch_slots(
            values,
            idx + 1,
        ).subrange(9 * (i - idx - 1), 9 * (i - idx - 1) + 9));
    }
}

/// The heap bytes of value `i` within the heap of any suffix that
/// covers it.
pub proof fn lemma_arch_heap_index(values: Seq<FieldV>, idx: int, i: int)
    requires
        0 <= idx <= i < values.len(),
    ensures
        arch_heap(values, idx).subrange(
            heap_len_of(values, i) - heap_len_of(values, idx),
            heap_len_of(values, i) - heap_len_of(values, idx) + heap_contrib(values[i]).len(),
        ) == heap_contrib(values[i]),
    decreases i - idx,
{
    lemma_heap_len_monotone(values, idx, i);
    lemma_arch_heap_len(values, idx);
    lemma_arch_heap_len(values, idx + 1);
    lemma_heap_len_monotone(values, i + 1, values.len() as int);
    assert(heap_len_of(values, i + 1) == heap_len_of(values, i) + heap_contrib(values[i]).len());
    if idx == i {
        assert(arch_heap(values, idx).subrange(0, heap_contrib(values[i]).len() as int)
            =~= heap_contrib(values[i]));
    } else {
        lemma_arch_heap_index(values, idx + 1, i);
        lemma_heap_len_monotone(values, idx + 1, i);
        let lo = heap_len_of(values, i) - heap_len_of(values, idx);
        let c = heap_contrib(values[idx]).len();
        assert(heap_len_of(values, idx + 1) == heap_len_of(values, idx) + c);
        assert(arch_heap(values, idx).subrange(lo, lo + heap_contrib(values[i]).len())
            =~= arch_heap(values, idx + 1).subrange(
            lo - c,
            lo - c + heap_contrib(values[i]).len(),
        ));
    }
}

/// The heap walk never shrinks.
pub proof fn lemma_heap_len_monotone(values: Seq<FieldV>, a: int, b: int)
    requires
        a <= b,
    ensures
        heap_len_of(values, a) <= heap_len_of(values, b),
    decreases b - a,
{
    if a < b {
        lemma_heap_len_monotone(values, a, b - 1);
    }
}

/// The archive encoder's output is a well-formed archive holding
/// exactly the encoded values: the field count is the number of values
/// and slot `i` reads back as value `i`.
pub proof fn lemma_arch_round_trip(values: Seq<FieldV>)
    requires
        spec_arch_encodable(values),
    ensures
        wf_archive(spec_arch_enc(values)),
        spec_arch_enc(values).len() == heap_base(values.len()) + heap_len_of(
            values,
            values.len() as int,
        ),
        arch_n(spec_arch_enc(values)) == values.len(),
        forall|i: int|
            0 <= i < values.len() ==> #[trigger] arch_field(spec_arch_enc(values), i) == values[i],
{
    vstd::bytes::lemma_auto_spec_u64_to_from_le_bytes();
    vstd::bytes::lemma_auto_spec_u32_to_from_le_bytes();
    let e = spec_arch_enc(values);
    let n = values.len() as int;
    let header = vstd::bytes::spec_u32_to_le_bytes(values.len() as u32);
    let slots = arch_slots(values, 0);
    let heap = arch_heap(values, 0);
    lemma_arch_slots_len(values, 0);
    lemma_arch_heap_len(values, 0);
    assert(e.len() == 4 + 9 * n + heap_len_of(values, n));
    assert(e.subrange(0, 4) =~= header);
    assert(arch_n(e) == n);
    // each slot's bytes
    assert forall|i: int| 0 <= i < n implies e.subrange(4 + 9 * i, 4 + 9 * i + 9) == arch_slot(
        values,
        i,
    ) by {
        lemma_arch_slots_index(values, 0, i);
        assert(e.subrange(4 + 9 * i, 4 + 9 * i + 9) =~= slots.subrange(9 * i, 9 * i + 9));
    }
    // tags, payloads and the heap walk
    assert forall|i: int| 0 <= i < n implies slot_reads_back(values, e, i) by {
        lemma_slot_reads_back(values, e, i);
    }
    assert forall|i: int| 0 <= i <= n implies heap_before(e, i) == heap_len_of(values, i) by {
        lemma_heap_walk(values, e, i);
    }
    assert forall|i: int| 0 <= i < n implies #[trigger] wf_slot(e, i) by {
        lemma_heap_walk(values, e, i);
        lemma_wf_and_field(values, e, i);
    }
    assert forall|i: int| 0 <= i < n implies #[trigger] arch_field(e, i) == values[i] by {
        lemma_heap_walk(values, e, i);
        lemma_wf_and_field(values, e, i);
    }
    assert(heap_before(e, n) == heap_len_of(values, n));
    assert(wf_archive(e));
}

/// What it means for slot `i` of `e` to carry value `i` faithfully at
/// the byte level.
pub open spec fn slot_reads_back(values: Seq<FieldV>, e: Seq<u8>, i: int) -> bool {
    e.subrange(4 + 9 * i, 4 + 9 * i + 9) == arch_slot(values, i)
}

/// Unpack one slot's bytes: the tag matches the value's kind, and the
/// payload carries the value (or the heap window).
proof fn lemma_slot_reads_back(values: Seq<FieldV>, e: Seq<u8>, i: int)
    requires
        spec_arch_encodable(values),
        0 <= i < values.len(),
        e == spec_arch_enc(values),
    ensures
        slot_reads_back(values, e, i),
{
    vstd::bytes::lemma_auto_spec_u64_to_from_le_bytes();
    vstd::bytes::lemma_auto_spec_u32_to_from_le_bytes();
    lemma_arch_slots_len(values, 0);
    lemma_arch_heap_len(values, 0);
    lemma_arch_slots_index(values, 0, i);
    assert(e.subrange(4 + 9 * i, 4 + 9 * i + 9) =~= arch_slots(values, 0).subrange(
        9 * i,
        9 * i + 9,
    ));
}

/// One slot of the encoding, byte by byte.
proof fn lemma_slot_bytes_pointwise(values: Seq<FieldV>, e: Seq<u8>, i: int)
    requires
        spec_arch_encodable(values),
        0 <= i < values.len(),
        e == spec_arch_enc(values),
    ensures
        e.len() == heap_base(values.len()) + heap_len_of(values, values.len() as int),
        arch_slot(values, i).len() == 9,
        e.subrange(4 + 9 * i, 4 + 9 * i + 9) == arch_slot(values, i),
        forall|k: int| 0 <= k < 9 ==> #[trigger] e[4 + 9 * i + k] == arch_slot(values, i)[k],
{
    vstd::bytes::lemma_auto_spec_u64_to_from_le_bytes();
    vstd::bytes::lemma_auto_spec_u32_to_from_le_bytes();
    lemma_arch_slots_len(values, 0);
    lemma_arch_heap_len(values, 0);
    lemma_arch_slot_len(values, i);
    lemma_slot_reads_back(values, e, i);
    assert forall|k: int| 0 <= k < 9 implies #[trigger] e[4 + 9 * i + k] == arch_slot(
        values,
        i,
    )[k] by {
        assert(e.subrange(4 + 9 * i, 4 + 9 * i + 9)[k] == e[4 + 9 * i + k]);
    }
}

/// The heap walk over the encoded buffer agrees with the heap walk over
/// the values.
proof fn lemma_heap_walk(values: Seq<FieldV>, e: Seq<u8>, i: int)
    requires
        spec_arch_encodable(values),
        0 <= i <= values.len(),
        e == spec_arch_enc(values),
    ensures
        heap_before(e, i) == heap_len_of(values, i),
    decreases i,
{
    vstd::bytes::lemma_auto_spec_u64_to_from_le_bytes();
    vstd::bytes::lemma_auto_spec_u32_to_from_le_bytes();
    if i > 0 {
        lemma_heap_walk(values, e, i - 1);
        lemma_slot_bytes_pointwise(values, e, i - 1);
        let slot = arch_slot(values, i - 1);
        let base = 4 + 9 * (i - 1);
        assert(e[base + 0] == slot[0]);
        assert(arch_tag(e, i - 1) == slot[0]);
        match values[i - 1] {
            FieldV::U64(x) => {
                assert(slot[0] == 0);
            },
            FieldV::I64(x) => {
                assert(slot[0] == 1);
            },
            FieldV::Bool(b) => {
                assert(slot[0] == 2);
            },
            FieldV::Text(t) => {
                assert(slot[0] == 3);
                assert(e.subrange(base, base + 9) == slot);
                assert(e.subrange(base + 5, base + 9) =~= e.subrange(base, base + 9).subrange(
                    5,
                    9,
                ));
                assert(slot.subrange(5, 9) =~= vstd::bytes::spec_u32_to_le_bytes(
                    encode_utf8(t).len() as u32,
                ));
                lemma_heap_len_monotone(values, i, values.len() as int);
                assert(encode_utf8(t).len() <= u32::MAX);
                assert(arch_text_len(e, i - 1) == encode_utf8(t).len());
            },
            FieldV::List(_) => {
                assert(false);
            },
        }
    }
}

/// Well-formedness of slot `i` of the encoding, and that it reads back
/// as value `i`.
proof fn lemma_wf_and_field(values: Seq<FieldV>, e: Seq<u8>, i: int)
    requires
        spec_arch_encodable(values),
        0 <= i < values.len(),
        e == spec_arch_enc(values),
        arch_n(e) == values.len(),
        heap_before(e, i) == heap_len_of(values, i),
        e.len() == heap_base(values.len()) + heap_len_of(values, values.len() as int),
    ensures
        wf_slot(e, i),
        arch_field(e, i) == values[i],
{
    vstd::bytes::lemma_auto_spec_u64_to_from_le_bytes();
    vstd::bytes::lemma_auto_spec_u32_to_from_le_bytes();
    lemma_slot_bytes_pointwise(values, e, i);
    let slot = arch_slot(values, i);
    let base = 4 + 9 * i;
    assert(e[base + 0] == slot[0]);
    assert(arch_tag(e, i) == slot[0]);
    match values[i] {
        FieldV::U64(x) => {
            assert(arch_tag(e, i) == 0);
            assert(e.subrange(base, base + 9) == slot);
            assert(e.subrange(base + 1, base + 9) =~= e.subrange(base, base + 9).subrange(1, 9));
            assert(slot.subrange(1, 9) =~= vstd::bytes::spec_u64_to_le_bytes(x));
            assert(arch_payload_u64(e, i) == x);
        },
        FieldV::I64(x) => {
            assert(arch_tag(e, i) == 1);
            assert(e.subrange(base, base + 9) == slot);
            assert(e.subrange(base + 1, base + 9) =~= e.subrange(base, base + 9).subrange(1, 9));
            assert(slot.subrange(1, 9) =~= vstd::bytes::spec_u64_to_le_bytes(x as u64));
            assert(arch_payload_u64(e, i) == (x as u64));
            lemma_i64_bit_round_trip(x);
        },
        FieldV::Bool(b) => {
            assert(arch_tag(e, i) == 2);
            assert(e[base + 1] == slot[1]);
            assert(slot[1] == (if b {
                1u8
            } else {
                0u8
            }));
            assert(e[base + 2] == slot[2] && slot[2] == 0);
            assert(e[base + 3] == slot[3] && slot[3] == 0);
            assert(e[base + 4] == slot[4] && slot[4] == 0);
            assert(e[base + 5] == slot[5] && slot[5] == 0);
            assert(e[base + 6] == slot[6] && slot[6] == 0);
            assert(e[base + 7] == slot[7] && slot[7] == 0);
            assert(e[base + 8] == slot[8] && slot[8] == 0);
        },
        FieldV::Text(t) => {
            assert(arch_tag(e, i) == 3);
            let off = heap_base(values.len()) + heap_len_of(values, i);
            lemma_heap_len_monotone(values, i + 1, values.len() as int);
            assert(heap_len_of(values, i + 1) == heap_len_of(values, i) + encode_utf8(t).len());
            assert(off + encode_utf8(t).len() <= e.len());
            assert(e.subrange(base, base + 9) == slot);
            assert(e.subrange(base + 1, base + 5) =~= e.subrange(base, base + 9).subrange(1, 5));
            assert(slot.subrange(1, 5) =~= vstd::bytes::spec_u32_to_le_bytes(off as u32));
            assert(arch_text_off(e, i) == off);
            assert(e.subrange(base + 5, base + 9) =~= e.subrange(base, base + 9).subrange(5, 9));
            assert(slot.subrange(5, 9) =~= vstd::bytes::spec_u32_to_le_bytes(
                encode_utf8(t).len() as u32,
            ));
            assert(arch_text_len(e, i) == encode_utf8(t).len());
            // the heap window holds exactly the string's bytes
            lemma_arch_slots_len(values, 0);
            lemma_arch_heap_index(values, 0, i);
            assert(e.subrange(off as int, (off + encode_utf8(t).len()) as int) =~= arch_heap(
                values,
                0,
            ).subrange(
                heap_len_of(values, i) as int,
                (heap_len_of(values, i) + heap_contrib(values[i]).len()) as int,
            ));
            assert(e.subrange(off as int, (off + encode_utf8(t).len()) as int) == encode_utf8(t));
            vstd::utf8::encode_utf8_valid_utf8(t);
            vstd::utf8::encode_utf8_decode_utf8(t);
        },
        FieldV::List(_) => {
            assert(false);
        },
    }
}

/// The field values of a record, in order, without their names.
pub open spec fn rec_values(r: Seq<(Seq<char>, FieldV)>) -> Seq<FieldV> {
    r.map_values(|p: (Seq<char>, FieldV)| p.1)
}

/// Check that the archive format can encode these fields; yields the
/// heap length.
fn arch_check(fields: &Vec<(String, FieldValue)>) -> (r: Option<u64>)
    ensures
        r is Some <==> spec_arch_encodable(rec_values(fields_view(fields@))),
        r is Some ==> r->0 == heap_len_of(rec_values(fields_view(fields@)), fields@.len() as int),
{
    let ghost values = rec_values(fields_view(fields@));
    let n = fields.len();
    let mut heap: u64 = 0;
    let mut idx: usize = 0;
    while idx < n
        invariant
            0 <= idx <= n,
            n == fields@.len(),
            values == rec_values(fields_view(fields@)),
            values.len() == n,
            forall|k: int| 0 <= k < idx ==> arch_value_ok(#[trigger] values[k]),
            heap == heap_len_of(values, idx as int),
            heap <= 0xffff_ffffu64,
        decreases n - idx,
    {
        proof {
            assert(values[idx as int] == fields@[idx as int].1@);
        }
        match &fields[idx].1 {
            FieldValue::List(_) => {
                proof {
                    assert(!arch_value_ok(values[idx as int]));
                }
                return None;
            },
            FieldValue::Text(t) => {
                let tlen = t.as_str().as_bytes().len();
                proof {
                    assert(heap_contrib(values[idx as int]) == encode_utf8(t@));
                    assert(tlen == encode_utf8(t@).len());
                }
                if (tlen as u64) > 0xffff_ffffu64 - heap {
                    proof {
                        assert(heap_len_of(values, idx + 1) > 0xffff_ffffu64);
                        lemma_heap_len_monotone(values, idx + 1, values.len() as int);
                        assert(!spec_arch_encodable(values));
                    }
                    return None;
                }
                heap = heap + (tlen as u64);
            },
            FieldValue::U64(_) => {},
            FieldValue::I64(_) => {},
            FieldValue::Bool(_) => {},
        }
        proof {
            assert(heap_len_of(values, idx as int + 1) == heap_len_of(values, idx as int)
                + heap_contrib(values[idx as int]).len());
            match fields@[idx as int].1 {
                FieldValue::Text(t) => {
                    assert(heap_contrib(values[idx as int]) == encode_utf8(t@));
                },
                FieldValue::List(_) => {
                    assert(false);
                },
                _ => {
                    assert(heap_contrib(values[idx as int]).len() == 0);
                },
            }
        }
        idx = idx + 1;
    }
    let total: u128 = 4 + 9 * (n as u128) + (heap as u128);
    if total <= 0xffff_ffffu128 {
        Some(heap)
    } else {
        None
    }
}

/// Append the slots for the fields from `idx` on; `off` is where the
/// next string's bytes will sit in the heap.
fn enc_slots_into(fields: &Vec<(String, FieldValue)>, idx: usize, off: u32, out: &mut Vec<u8>)
    requires
        idx <= fields@.len(),
        spec_arch_encodable(rec_values(fields_view(fields@))),
        off == heap_base(fields@.len()) + heap_len_of(
            rec_values(fields_view(fields@)),
            idx as int,
        ),
    ensures
        final(out)@ == old(out)@ + arch_slots(rec_values(fields_view(fields@)), idx as int),
    decreases fields@.len() - idx,
{
    let ghost values = rec_values(fields_view(fields@));
    if idx == fields.len() {
        proof {
            assert(final(out)@ =~= old(out)@ + arch_slots(values, idx as int));
        }
        return ;
    }
    proof {
        assert(values[idx as int] == fields@[idx as int].1@);
        assert(arch_value_ok(values[idx as int]));
        lemma_heap_len_monotone(values, idx + 1, values.len() as int);
        assert(heap_len_of(values, idx + 1) == heap_len_of(values, idx as int) + heap_contrib(
            values[idx as int],
        ).len());
    }
    let next_off: u32;
    match &fields[idx].1 {
        FieldValue::U64(x) => {
            out.push(0);
            let mut payload = vstd::bytes::u64_to_le_bytes(*x);
            out.append(&mut payload);
            next_off = off;
        },
        FieldValue::I64(x) => {
            out.push(1);
            #[verifier::truncate]
            let bits: u64 = (*x) as u64;
            let mut payload = vstd::bytes::u64_to_le_bytes(bits);
            out.append(&mut payload);
            next_off = off;
        },
        FieldValue::Bool(b) => {
            out.push(2);
            out.push(if *b {
                1
            } else {
                0
            });
            out.push(0);
            out.push(0);
            out.push(0);
            out.push(0);
            out.push(0);
            out.push(0);
            out.push(0);
            next_off = off;
        },
        FieldValue::Text(t) => {
            out.push(3);
            let mut off_bytes = vstd::bytes::u32_to_le_bytes(off);
            out.append(&mut off_bytes);
            let tlen = t.as_str().as_bytes().len();
            proof {
                assert(heap_contrib(values[idx as int]) == encode_utf8(t@));
            }
            let mut len_bytes = vstd::bytes::u32_to_le_bytes(tlen as u32);
            out.append(&mut len_bytes);
            next_off = off + (tlen as u32);
        },
        FieldValue::List(_) => {
            proof {
                assert(false);
            }
            next_off = off;
        },
    }
    proof {
        vstd::bytes::lemma_auto_spec_u64_to_from_le_bytes();
        vstd::bytes::lemma_auto_spec_u32_to_from_le_bytes();
        assert(out@ =~= old(out)@ + arch_slot(values, idx as int));
    }
    enc_slots_into(fields, idx + 1, next_off, out);
    proof {
        assert(final(out)@ =~= old(out)@ + arch_slots(values, idx as int));
    }
}

/// Append the heap for the fields from `idx` on: the strings' bytes, in
/// order.
fn enc_heap_into(fields: &Vec<(String, FieldValue)>, idx: usize, out: &mut Vec<u8>)
    requires
        idx <= fields@.len(),
    ensures
        final(out)@ == old(out)@ + arch_heap(rec_values(fields_view(fields@)), idx as int),
    decreases fields@.len() - idx,
{
    let ghost values = rec_values(fields_view(fields@));
    if idx == fields.len() {
        proof {
            assert(final(out)@ =~= old(out)@ + arch_heap(values, idx as int));
        }
        return ;
    }
    proof {
        assert(values[idx as int] == fields@[idx as int].1@);
    }
    match &fields[idx].1 {
        FieldValue::Text(t) => {
            let mut text_bytes = t.as_str().as_bytes_vec();
            out.append(&mut text_bytes);
        },
        _ => {},
    }
    proof {
        assert(out@ =~= old(out)@ + heap_contrib(values[idx as int]));
    }
    enc_heap_into(fields, idx + 1, out);
    proof {
        assert(final(out)@ =~= old(out)@ + arch_heap(values, idx as int));
    }
}

/// Serialize a record into its archive encoding.  Fails exactly when
/// the format cannot hold the record: a string-list field, or a buffer
/// that 32-bit offsets could not address.
pub fn arch_encode(rec: &Record) -> (r: Result<Vec<u8>, StorageError>)
    ensures
        r is Ok <==> spec_arch_encodable(rec_values(rec@)),
        r is Ok ==> r->Ok_0@ == spec_arch_enc(rec_values(rec@)),
{
    proof {
        assert(rec@ == fields_view(rec.fields@));
    }
    let heap_total = match arch_check(&rec.fields) {
        Some(h) => h,
        None => {
            return Err(
                StorageError::Serialization(
                    "Record cannot be archived: unsupported field or too large".to_owned(),
                ),
            );
        },
    };
    let ghost values = rec_values(rec@);
    let n = rec.fields.len();
    proof {
        assert(heap_base(values.len()) + heap_len_of(values, values.len() as int)
            <= 0xffff_ffffu64);
    }
    let mut out: Vec<u8> = vstd::bytes::u32_to_le_bytes(n as u32);
    enc_slots_into(&rec.fields, 0, 4 + 9 * (n as u32), &mut out);
    enc_heap_into(&rec.fields, 0, &mut out);
    proof {
        vstd::bytes::lemma_auto_spec_u32_to_from_le_bytes();
        assert(out@ =~= spec_arch_enc(values));
    }
    Ok(out)
}

/// The values a well-formed archive holds, slot by slot.
pub open spec fn arch_values(s: Seq<u8>) -> Seq<FieldV> {
    Seq::new(arch_n(s), |i: int| arch_field(s, i))
}

/// Casting an unsigned value through its signed bit pattern preserves
/// it.
proof fn lemma_u64_bit_round_trip(x: u64)
    ensures
        ((x as i64) as u64) == x,
{
    assert(((x as i64) as u64) == x) by (bit_vector);
}

/// In a well-formed archive, the heap walk over the buffer and the heap
/// walk over the values it holds agree.
proof fn lemma_wf_heap_walk(s: Seq<u8>, i: int)
    requires
        wf_archive(s),
        0 <= i <= arch_n(s),
    ensures
        heap_len_of(arch_values(s), i) == heap_before(s, i),
    decreases i,
{
    let v = arch_values(s);
    if i > 0 {
        lemma_wf_heap_walk(s, i - 1);
        assert(wf_slot(s, i - 1));
        assert(v[i - 1] == arch_field(s, i - 1));
        let tag = arch_tag(s, i - 1);
        if tag == 3 {
            let window = s.subrange(
                arch_text_off(s, i - 1) as int,
                (arch_text_off(s, i - 1) + arch_text_len(s, i - 1)) as int,
            );
            vstd::utf8::decode_utf8_encode_utf8(window);
            assert(heap_contrib(v[i - 1]) == window);
            assert(heap_contrib(v[i - 1]).len() == arch_text_len(s, i - 1));
        } else {
            assert(heap_contrib(v[i - 1]).len() == 0);
        }
    }
}

/// In a well-formed archive, slot `i`'s bytes are exactly the slot the
/// encoder writes for the value it holds.
proof fn lemma_wf_slot_bytes(s: Seq<u8>, i: int)
    requires
        wf_archive(s),
        0 <= i < arch_n(s),
    ensures
        s.subrange(4 + 9 * i, 4 + 9 * i + 9) == arch_slot(arch_values(s), i),
{
    vstd::bytes::lemma_auto_spec_u64_to_from_le_bytes();
    vstd::bytes::lemma_auto_spec_u32_to_from_le_bytes();
    let v = arch_values(s);
    let base = 4 + 9 * i;
    assert(wf_slot(s, i));
    assert(v[i] == arch_field(s, i));
    let tag = arch_tag(s, i);
    let slot = s.subrange(base, base + 9);
    assert(slot[0] == s[base]);
    lemma_wf_heap_walk(s, i);
    if tag == 0 {
        assert(s.subrange(base + 1, base + 9) =~= slot.subrange(1, 9));
        assert(arch_slot(v, i) == seq![0u8] + vstd::bytes::spec_u64_to_le_bytes(
            arch_payload_u64(s, i),
        ));
        assert(slot =~= arch_slot(v, i));
    } else if tag == 1 {
        assert(s.subrange(base + 1, base + 9) =~= slot.subrange(1, 9));
        lemma_u64_bit_round_trip(arch_payload_u64(s, i));
        assert(arch_slot(v, i) == seq![1u8] + vstd::bytes::spec_u64_to_le_bytes(
            arch_payload_u64(s, i),
        ));
        assert(slot =~= arch_slot(v, i));
    } else if tag == 2 {
        assert(slot =~= arch_slot(v, i));
    } else {
        assert(tag == 3);
        let window = s.subrange(
            arch_text_off(s, i) as int,
            (arch_text_off(s, i) + arch_text_len(s, i)) as int,
        );
        vstd::utf8::decode_utf8_encode_utf8(window);
        assert(heap_contrib(v[i]) == window);
        assert(arch_slot(v, i) == seq![3u8] + vstd::bytes::spec_u32_to_le_bytes(
            (heap_base(v.len()) + heap_len_of(v, i)) as u32,
        ) + vstd::bytes::spec_u32_to_le_bytes(window.len() as u32));
        assert(arch_text_off(s, i) == heap_base(arch_n(s)) + heap_before(s, i));
        assert(heap_base(v.len()) + heap_len_of(v, i) == arch_text_off(s, i));
        assert(s.subrange(base + 1, base + 5) =~= slot.subrange(1, 5));
        assert(slot.subrange(1, 5) == vstd::bytes::spec_u32_to_le_bytes(
            arch_text_off(s, i) as u32,
        ));
        assert(s.subrange(base + 5, base + 9) =~= slot.subrange(5, 9));
        assert(slot.subrange(5, 9) == vstd::bytes::spec_u32_to_le_bytes(
            arch_text_len(s, i) as u32,
        ));
        assert(slot =~= arch_slot(v, i));
    }
}

/// In a well-formed archive, the slots region from slot `idx` on is
/// exactly what the encoder writes.
proof fn lemma_wf_slots_bytes(s: Seq<u8>, idx: int)
    requires
        wf_archive(s),
        0 <= idx <= arch_n(s),
    ensures
        s.subrange(4 + 9 * idx, (4 + 9 * arch_n(s)) as int) == arch_slots(arch_values(s), idx),
    decreases arch_n(s) - idx,
{
    let v = arch_values(s);
    if idx == arch_n(s) {
        assert(s.subrange(4 + 9 * idx, 4 + 9 * idx) =~= arch_slots(v, idx));
    } else {
        lemma_wf_slot_bytes(s, idx);
        lemma_wf_slots_bytes(s, idx + 1);
        assert(s.subrange(4 + 9 * idx, (4 + 9 * arch_n(s)) as int) =~= s.subrange(
            4 + 9 * idx,
            4 + 9 * idx + 9,
        ) + s.subrange(4 + 9 * (idx + 1), (4 + 9 * arch_n(s)) as int));
    }
}

/// In a well-formed archive, the heap region from value `idx`'s bytes
/// on is exactly what the encoder writes.
proof fn lemma_wf_heap_bytes(s: Seq<u8>, idx: int)
    requires
        wf_archive(s),
        0 <= idx <= arch_n(s),
    ensures
        s.subrange(heap_base(arch_n(s)) + heap_before(s, idx) as int, s.len() as int)
            == arch_heap(arch_values(s), idx),
    decreases arch_n(s) - idx,
{
    let v = arch_values(s);
    let n = arch_n(s);
    lemma_wf_heap_walk(s, idx);
    lemma_heap_before_monotone(s, idx, n as int);
    if idx == n {
        assert(heap_base(n) + heap_before(s, n as int) == s.len());
        assert(s.subrange(s.len() as int, s.len() as int) =~= arch_heap(v, idx));
    } else {
        assert(wf_slot(s, idx));
        lemma_wf_heap_bytes(s, idx + 1);
        let lo = heap_base(n) + heap_before(s, idx) as int;
        let tag = arch_tag(s, idx);
        if tag == 3 {
            let window = s.subrange(
                arch_text_off(s, idx) as int,
                (arch_text_off(s, idx) + arch_text_len(s, idx)) as int,
            );
            vstd::utf8::decode_utf8_encode_utf8(window);
            assert(heap_contrib(v[idx]) == window);
            assert(arch_text_off(s, idx) == lo);
            assert(heap_before(s, idx + 1) == heap_before(s, idx) + arch_text_len(s, idx));
            lemma_heap_before_monotone(s, idx + 1, n as int);
            assert(heap_base(n) + heap_before(s, idx + 1) <= s.len());
            assert(s.subrange(lo, s.len() as int) =~= window + s.subrange(
                lo + arch_text_len(s, idx),
                s.len() as int,
            ));
        } else {
            assert(heap_contrib(v[idx]).len() == 0);
            assert(heap_before(s, idx + 1) == heap_before(s, idx));
            assert(s.subrange(lo, s.len() as int) =~= heap_contrib(v[idx]) + s.subrange(
                lo,
                s.len() as int,
            ));
        }
    }
}

/// The buffer heap walk never shrinks.
proof fn lemma_heap_before_monotone(s: Seq<u8>, a: int, b: int)
    requires
        a <= b,
    ensures
        heap_before(s, a) <= heap_before(s, b),
    decreases b - a,
{
    if a < b {
        lemma_heap_before_monotone(s, a, b - 1);
    }
}

/// Validation is canonical: a well-formed buffer is exactly the
/// encoding of the values it holds, so validated access accepts
/// nothing but this format's encoder outputs.
pub proof fn lemma_wf_archive_exact(s: Seq<u8>)
    requires
        wf_archive(s),
    ensures
        spec_arch_encodable(arch_values(s)),
        spec_arch_enc(arch_values(s)) == s,
{
    vstd::bytes::lemma_auto_spec_u64_to_from_le_bytes();
    vstd::bytes::lemma_auto_spec_u32_to_from_le_bytes();
    let v = arch_values(s);
    let n = arch_n(s);
    assert forall|i: int| 0 <= i < v.len() implies arch_value_ok(#[trigger] v[i]) by {
        assert(v[i] == arch_field(s, i));
    }
    lemma_wf_heap_walk(s, n as int);
    assert(heap_base(n) + heap_len_of(v, n as int) == s.len());
    assert(spec_arch_encodable(v));
    assert(s.subrange(0, 4) == vstd::bytes::spec_u32_to_le_bytes(n as u32)) by {
        assert(s.subrange(0, 4).len() == 4);
    }
    lemma_wf_slots_bytes(s, 0);
    lemma_wf_heap_bytes(s, 0);
    assert(s =~= s.subrange(0, 4) + s.subrange(4, (4 + 9 * n) as int) + s.subrange(
        4 + 9 * n as int,
        s.len() as int,
    ));
    assert(spec_arch_enc(v) == s);
}

/// Check that a buffer is a well-formed archive: every offset in
/// range, every tag legal, every string valid UTF-8, the heap exactly
/// filling the buffer.
pub fn arch_validate(bytes: &[u8]) -> (r: bool)
    ensures
        r == wf_archive(bytes@),
{
    let len = bytes.len();
    if len < 4 || (len as u64) > 0xffff_ffffu64 {
        return false;
    }
    let header = vstd::slice::slice_subrange(bytes, 0, 4);
    let n = vstd::bytes::u32_from_le_bytes(header);
    proof {
        assert(arch_n(bytes@) == n as nat);
    }
    if (len as u64) < 4 + 9 * (n as u64) {
        return false;
    }
    let mut expected: u64 = 4 + 9 * (n as u64);
    let mut i: usize = 0;
    while i < n as usize
        invariant
            0 <= i <= n,
            len == bytes@.len(),
            arch_n(bytes@) == n as nat,
            4 + 9 * (n as u64) <= len as u64,
            forall|k: int| 0 <= k < i ==> #[trigger] wf_slot(bytes@, k),
            expected == heap_base(n as nat) + heap_before(bytes@, i as int),
            expected <= len as u64,
        decreases n - i,
    {
        proof {
            assert(4 + 9 * (i as int) + 9 <= len as int);
        }
        let base: usize = 4 + 9 * i;
        let tag = *vstd::slice::slice_index_get(bytes, base);
        proof {
            assert(arch_tag(bytes@, i as int) == tag);
        }
        if tag == 0 || tag == 1 {
            proof {
                assert(heap_before(bytes@, i as int + 1) == heap_before(bytes@, i as int));
            }
        } else if tag == 2 {
            let b1 = *vstd::slice::slice_index_get(bytes, base + 1);
            if b1 > 1 {
                proof {
                    assert(!wf_slot(bytes@, i as int));
                }
                return false;
            }
            let mut k: usize = 2;
            while k < 9
                invariant
                    2 <= k <= 9,
                    len == bytes@.len(),
                    base == 4 + 9 * i,
                    i < n,
                    arch_n(bytes@) == n as nat,
                    4 + 9 * (n as u64) <= len as u64,
                    arch_tag(bytes@, i as int) == 2,
                    bytes@[base as int + 1] == 0 || bytes@[base as int + 1] == 1,
                    forall|m: int| 2 <= m < k ==> #[trigger] bytes@[base as int + m] == 0,
                decreases 9 - k,
            {
                if *vstd::slice::slice_index_get(bytes, base + k) != 0 {
                    proof {
                        assert(!wf_slot(bytes@, i as int));
                    }
                    return false;
                }
                k = k + 1;
            }
            proof {
                assert(heap_before(bytes@, i as int + 1) == heap_before(bytes@, i as int));
            }
        } else if tag == 3 {
            let off_bytes = vstd::slice::slice_subrange(bytes, base + 1, base + 5);
            let off = vstd::bytes::u32_from_le_bytes(off_bytes);
            let len_bytes = vstd::slice::slice_subrange(bytes, base + 5, base + 9);
            let tlen = vstd::bytes::u32_from_le_bytes(len_bytes);
            proof {
                assert(arch_text_off(bytes@, i as int) == off as nat);
                assert(arch_text_len(bytes@, i as int) == tlen as nat);
            }
            if (off as u64) != expected {
                proof {
                    assert(!wf_slot(bytes@, i as int));
                }
                return false;
            }
            if (off as u64) + (tlen as u64) > len as u64 {
                proof {
                    assert(!wf_slot(bytes@, i as int));
                }
                return false;
            }
            let window = vstd::slice::slice_subrange(bytes, off as usize, (off as usize) + (
            tlen as usize));
            if str_from_utf8(window).is_none() {
                proof {
                    assert(!wf_slot(bytes@, i as int));
                }
                return false;
            }
            expected = expected + (tlen as u64);
            proof {
                assert(heap_before(bytes@, i as int + 1) == heap_before(bytes@, i as int)
                    + tlen as nat);
            }
        } else {
            proof {
                assert(!wf_slot(bytes@, i as int));
            }
            return false;
        }
        proof {
            assert(wf_slot(bytes@, i as int));
        }
        i = i + 1;
    }
    if expected == len as u64 {
        proof {
            assert(wf_archive(bytes@));
        }
        true
    } else {
        proof {
            assert(!wf_archive(bytes@));
        }
        false
    }
}

/// A borrowed, typed view into an archived buffer.  Fields are read
/// directly at their offsets; strings are handed out as borrowed slices
/// of the same buffer.
pub struct ArchivedRecord<'a> {
    /// The archived bytes the view reads from.
    pub bytes: &'a [u8],
}

impl<'a> ArchivedRecord<'a> {
    /// How many fields the archive holds.
    pub fn field_count(&self) -> (r: usize)
        requires
            wf_archive(self.bytes@),
        ensures
            r == arch_n(self.bytes@),
    {
        let header = vstd::slice::slice_subrange(self.bytes, 0, 4);
        let n = vstd::bytes::u32_from_le_bytes(header);
        proof {
            assert(arch_n(self.bytes@) == n as nat);
        }
        n as usize
    }

    /// Read the unsigned integer archived in field `i`.
    pub fn u64_field(&self, i: usize) -> (r: u64)
        requires
            wf_archive(self.bytes@),
            i < arch_n(self.bytes@),
            arch_field(self.bytes@, i as int) is U64,
        ensures
            arch_field(self.bytes@, i as int) == FieldV::U64(r),
    {
        let buf_len = self.bytes.len();
        proof {
            assert(heap_base(arch_n(self.bytes@)) <= buf_len);
            assert(4 + 9 * (i as int) + 9 <= buf_len);
        }
        let base: usize = 4 + 9 * i;
        let payload = vstd::slice::slice_subrange(self.bytes, base + 1, base + 9);
        vstd::bytes::u64_from_le_bytes(payload)
    }

    /// Read the signed integer archived in field `i`.
    pub fn i64_field(&self, i: usize) -> (r: i64)
        requires
            wf_archive(self.bytes@),
            i < arch_n(self.bytes@),
            arch_field(self.bytes@, i as int) is I64,
        ensures
            arch_field(self.bytes@, i as int) == FieldV::I64(r),
    {
        let buf_len = self.bytes.len();
        proof {
            assert(heap_base(arch_n(self.bytes@)) <= buf_len);
            assert(4 + 9 * (i as int) + 9 <= buf_len);
        }
        let base: usize = 4 + 9 * i;
        let payload = vstd::slice::slice_subrange(self.bytes, base + 1, base + 9);
        let bits = vstd::bytes::u64_from_le_bytes(payload);
        #[verifier::truncate]
        let r = bits as i64;
        r
    }

    /// Read the boolean archived in field `i`.
    pub fn bool_field(&self, i: usize) -> (r: bool)
        requires
            wf_archive(self.bytes@),
            i < arch_n(self.bytes@),
            arch_field(self.bytes@, i as int) is Bool,
        ensures
            arch_field(self.bytes@, i as int) == FieldV::Bool(r),
    {
        let buf_len = self.bytes.len();
        proof {
            assert(heap_base(arch_n(self.bytes@)) <= buf_len);
            assert(4 + 9 * (i as int) + 9 <= buf_len);
        }
        let base: usize = 4 + 9 * i;
        *vstd::slice::slice_index_get(self.bytes, base + 1) == 1
    }

    /// Read the string archived in field `i`, as a borrowed slice of
    /// the archived buffer: no allocation, no decode of other fields.
    pub fn text_field(&self, i: usize) -> (r: &'a str)
        requires
            wf_archive(self.bytes@),
            i < arch_n(self.bytes@),
            arch_field(self.bytes@, i as int) is Text,
        ensures
            arch_field(self.bytes@, i as int) == FieldV::Text(r@),
    {
        let buf_len = self.bytes.len();
        proof {
            assert(heap_base(arch_n(self.bytes@)) <= buf_len);
            assert(4 + 9 * (i as int) + 9 <= buf_len);
        }
        let base: usize = 4 + 9 * i;
        let off_bytes = vstd::slice::slice_subrange(self.bytes, base + 1, base + 5);
        let off = vstd::bytes::u32_from_le_bytes(off_bytes);
        let len_bytes = vstd::slice::slice_subrange(self.bytes, base + 5, base + 9);
        let tlen = vstd::bytes::u32_from_le_bytes(len_bytes);
        proof {
            assert(arch_text_off(self.bytes@, i as int) == off as nat);
            assert(arch_text_len(self.bytes@, i as int) == tlen as nat);
            assert(wf_slot(self.bytes@, i as int));
            assert(arch_tag(self.bytes@, i as int) == 3);
        }
        let window = vstd::slice::slice_subrange(
            self.bytes,
            off as usize,
            (off as usize) + (tlen as usize),
        );
        match str_from_utf8(window) {
            Some(text) => {
                proof {
                    assert(encode_utf8(text@) == window@);
                    vstd::utf8::encode_utf8_decode_utf8(text@);
                    assert(decode_utf8(window@) == text@);
                }
                text
            },
            None => {
                proof {
                    assert(false);
                }
                ""
            },
        }
    }

    /// Copy field `i` out of the archive as an owned value.
    pub fn field(&self, i: usize) -> (r: FieldValue)
        requires
            wf_archive(self.bytes@),
            i < arch_n(self.bytes@),
        ensures
            r@ == arch_field(self.bytes@, i as int),
    {
        let buf_len = self.bytes.len();
        proof {
            assert(heap_base(arch_n(self.bytes@)) <= buf_len);
            assert(4 + 9 * (i as int) + 9 <= buf_len);
        }
        let base: usize = 4 + 9 * i;
        let tag = *vstd::slice::slice_index_get(self.bytes, base);
        proof {
            assert(wf_slot(self.bytes@, i as int));
            assert(arch_tag(self.bytes@, i as int) == tag);
        }
        if tag == 0 {
            FieldValue::U64(self.u64_field(i))
        } else if tag == 1 {
            FieldValue::I64(self.i64_field(i))
        } else if tag == 2 {
            FieldValue::Bool(self.bool_field(i))
        } else {
            proof {
                assert(tag == 3);
            }
            FieldValue::Text(self.text_field(i).to_owned())
        }
    }
}

} // verus!
