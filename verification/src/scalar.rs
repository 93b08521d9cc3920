//! How the fields of a message stand on the wire, kind by kind: byte
//! strings, text, integers, and messages inside messages.

use vstd::prelude::*;
use vstd::utf8::*;
use crate::message::{
    encode, lemma_round_trip_within, merge_within, spec_encode, spec_merge_bytes, Layout, Message,
};
use crate::wire::{copy_range, fields_view, Field, Payload, WireField, WireValue};

verus! {

/// The 64 bits that stand for a 32-bit integer: a negative one is extended
/// with its sign.
pub open spec fn spec_int32_bits(v: i32) -> u64 {
    if v >= 0 {
        v as u64
    } else {
        (v + 0x1_0000_0000_0000_0000) as u64
    }
}

/// The 32-bit integer in the low 32 bits of `x`.
pub open spec fn spec_int32_of_bits(x: u64) -> i32 {
    let low = x % 0x1_0000_0000;
    if low < 0x8000_0000 {
        low as i32
    } else {
        (low - 0x1_0000_0000) as i32
    }
}

/// The 64 bits that stand for a 64-bit integer.
pub open spec fn spec_int64_bits(v: i64) -> u64 {
    if v >= 0 {
        v as u64
    } else {
        (v + 0x1_0000_0000_0000_0000) as u64
    }
}

/// The 64-bit integer that 64 bits stand for.
pub open spec fn spec_int64_of_bits(x: u64) -> i64 {
    if x < 0x8000_0000_0000_0000 {
        x as i64
    } else {
        (x - 0x1_0000_0000_0000_0000) as i64
    }
}

/// The 64 bits that stand for a 32-bit integer.
pub fn int32_bits(v: i32) -> (r: u64)
    ensures
        r == spec_int32_bits(v),
{
    if v >= 0 {
        v as u64
    } else {
        u64::MAX - ((-(v + 1)) as u64)
    }
}

/// The 32-bit integer in the low 32 bits of `x`.
pub fn int32_of_bits(x: u64) -> (r: i32)
    ensures
        r == spec_int32_of_bits(x),
{
    let low: u64 = x % 0x1_0000_0000;
    if low < 0x8000_0000 {
        low as i32
    } else {
        (low as i64 - 0x1_0000_0000) as i32
    }
}

/// The 64 bits that stand for a 64-bit integer.
pub fn int64_bits(v: i64) -> (r: u64)
    ensures
        r == spec_int64_bits(v),
{
    if v >= 0 {
        v as u64
    } else {
        u64::MAX - ((-(v + 1)) as u64)
    }
}

/// The 64-bit integer that 64 bits stand for.
pub fn int64_of_bits(x: u64) -> (r: i64)
    ensures
        r == spec_int64_of_bits(x),
{
    if x < 0x8000_0000_0000_0000 {
        x as i64
    } else {
        -((u64::MAX - x) as i64) - 1
    }
}

/// A 32-bit integer is read back from the bits that stand for it.
pub proof fn lemma_int32_bits_round_trip(v: i32)
    ensures
        spec_int32_of_bits(spec_int32_bits(v)) == v,
        (spec_int32_bits(v) == 0) == (v == 0),
{
}

/// A 64-bit integer is read back from the bits that stand for it.
pub proof fn lemma_int64_bits_round_trip(v: i64)
    ensures
        spec_int64_of_bits(spec_int64_bits(v)) == v,
        (spec_int64_bits(v) == 0) == (v == 0),
{
}

/// Text is empty exactly where its UTF-8 bytes are, and is read back from
/// them.
pub proof fn lemma_text_round_trip(s: Seq<char>)
    ensures
        valid_utf8(encode_utf8(s)),
        decode_utf8(encode_utf8(s)) == s,
        (encode_utf8(s).len() == 0) == (s.len() == 0),
{
    encode_utf8_valid_utf8(s);
    encode_utf8_decode_utf8(s);
    if encode_utf8(s).len() == 0 {
        assert(encode_utf8(s) =~= Seq::<u8>::empty());
        assert(decode_utf8(Seq::<u8>::empty()) =~= Seq::<char>::empty());
    }
}

/// The field of a byte string: none where it is empty.
pub open spec fn bytes_field(tag: u32, d: Seq<u8>) -> Seq<WireField> {
    if d.len() == 0 {
        Seq::empty()
    } else {
        seq![WireField { tag, value: WireValue::Bytes(d) }]
    }
}

/// The field of a text: its UTF-8 bytes; none where it is empty.
pub open spec fn text_field(tag: u32, s: Seq<char>) -> Seq<WireField> {
    bytes_field(tag, encode_utf8(s))
}

/// The field of an unsigned integer: none where it is 0.
pub open spec fn uint64_field(tag: u32, v: u64) -> Seq<WireField> {
    if v == 0 {
        Seq::empty()
    } else {
        seq![WireField { tag, value: WireValue::Varint(v) }]
    }
}

/// The field of a 32-bit integer: none where it is 0.
pub open spec fn int32_field(tag: u32, v: i32) -> Seq<WireField> {
    uint64_field(tag, spec_int32_bits(v))
}

/// The field of a 64-bit integer: none where it is 0.
pub open spec fn int64_field(tag: u32, v: i64) -> Seq<WireField> {
    uint64_field(tag, spec_int64_bits(v))
}

/// The field that holds the encoding of a message.
pub open spec fn message_field<M: Layout>(tag: u32, v: M::V) -> WireField {
    WireField { tag, value: WireValue::Bytes(spec_encode::<M>(v)) }
}

/// The field of a message that may be absent: none where it is, and one
/// where it is present, be it blank.
pub open spec fn optional_field<M: Layout>(tag: u32, v: Option<M::V>) -> Seq<WireField> {
    match v {
        Some(m) => seq![message_field::<M>(tag, m)],
        None => Seq::empty(),
    }
}

/// The fields of a list of messages: one for each, in order.
pub open spec fn repeated_fields<M: Layout>(tag: u32, v: Seq<M::V>) -> Seq<WireField> {
    Seq::new(v.len(), |i: int| message_field::<M>(tag, v[i]))
}

/// The field that holds a text, be it empty.
pub open spec fn whole_text_field(tag: u32, s: Seq<char>) -> WireField {
    WireField { tag, value: WireValue::Bytes(encode_utf8(s)) }
}

/// The fields of a list of texts: one for each, in order.
pub open spec fn repeated_text_fields(tag: u32, v: Seq<Seq<char>>) -> Seq<WireField> {
    Seq::new(v.len(), |i: int| whole_text_field(tag, v[i]))
}

/// The byte string that a field holds; `None` for a payload of another kind.
pub open spec fn spec_bytes_in(f: WireField) -> Option<Seq<u8>> {
    match f.value {
        WireValue::Bytes(d) => Some(d),
        _ => None,
    }
}

/// The text that a field holds; `None` for a payload of another kind or
/// bytes that are not UTF-8.
pub open spec fn spec_text_in(f: WireField) -> Option<Seq<char>> {
    match f.value {
        WireValue::Bytes(d) => if valid_utf8(d) {
            Some(decode_utf8(d))
        } else {
            None
        },
        _ => None,
    }
}

/// The unsigned integer that a field holds; `None` for a payload of another
/// kind.
pub open spec fn spec_uint64_in(f: WireField) -> Option<u64> {
    match f.value {
        WireValue::Varint(x) => Some(x),
        _ => None,
    }
}

/// The 32-bit integer that a field holds, which is the low 32 bits of its
/// payload; `None` for a payload of another kind.
pub open spec fn spec_int32_in(f: WireField) -> Option<i32> {
    match f.value {
        WireValue::Varint(x) => Some(spec_int32_of_bits(x)),
        _ => None,
    }
}

/// The 64-bit integer that a field holds; `None` for a payload of another
/// kind.
pub open spec fn spec_int64_in(f: WireField) -> Option<i64> {
    match f.value {
        WireValue::Varint(x) => Some(spec_int64_of_bits(x)),
        _ => None,
    }
}

/// The message that results where the message in a field is merged into
/// `cur`, or into the blank message where `cur` is absent, in a message that
/// is `depth` short of the limit; `None` for a payload of another kind or
/// one that does not merge, and where the limit is reached.
pub open spec fn spec_message_in<M: Layout>(cur: Option<M::V>, f: WireField, depth: nat) -> Option<
    M::V,
> {
    match f.value {
        WireValue::Bytes(d) => if depth == 0 {
            None
        } else {
            spec_merge_bytes::<M>(
                match cur {
                    Some(m) => m,
                    None => M::spec_blank(),
                },
                d,
                (depth - 1) as nat,
            )
        },
        _ => None,
    }
}

/// The view of a value that may be absent.
pub open spec fn view_of<M: View>(o: Option<M>) -> Option<M::V> {
    match o {
        Some(m) => Some(m@),
        None => None,
    }
}

/// The views of a list of values.
pub open spec fn views_of<M: View>(s: Seq<M>) -> Seq<M::V> {
    s.map_values(|m: M| m@)
}

/// The views of a list of texts.
pub open spec fn texts_of(s: Seq<String>) -> Seq<Seq<char>> {
    s.map_values(|m: String| m@)
}

/// A message in a field merges into the blank message to what it encodes,
/// where the limit leaves room for it.
pub proof fn lemma_message_field_round_trip<M: Message>(tag: u32, v: M::V, depth: nat)
    requires
        M::spec_fits(v),
        depth > M::spec_height(),
    ensures
        spec_message_in::<M>(None, message_field::<M>(tag, v), depth) == Some(v),
{
    lemma_round_trip_within::<M>(v, (depth - 1) as nat);
}

/// `std`'s `String::from_utf8`: the text that the bytes are the UTF-8
/// encoding of, and `None` exactly where they are not valid UTF-8.
#[verifier::external_body]
fn text_from_utf8(bytes: Vec<u8>) -> (r: Option<String>)
    ensures
        match r {
            Some(s) => valid_utf8(bytes@) && s@ == decode_utf8(bytes@),
            None => !valid_utf8(bytes@),
        },
{
    match String::from_utf8(bytes) {
        Ok(s) => Some(s),
        Err(_) => None,
    }
}

/// Appends the field of a byte string, if it has one.
pub fn push_bytes(out: &mut Vec<Field>, tag: u32, d: &[u8])
    ensures
        fields_view(final(out)@) == fields_view(old(out)@) + bytes_field(tag, d@),
{
    if d.len() != 0 {
        let copy = copy_range(d, 0, d.len());
        assert(copy@ =~= d@);
        out.push(Field { tag, payload: Payload::Bytes(copy) });
    }
    assert(fields_view(out@) =~= fields_view(old(out)@) + bytes_field(tag, d@));
}

/// Appends the field of a text, if it has one.
pub fn push_text(out: &mut Vec<Field>, tag: u32, s: &str)
    ensures
        fields_view(final(out)@) == fields_view(old(out)@) + text_field(tag, s@),
{
    push_bytes(out, tag, s.as_bytes());
}

/// Appends the field that holds a text, be it empty.
pub fn push_whole_text(out: &mut Vec<Field>, tag: u32, s: &str)
    ensures
        fields_view(final(out)@) == fields_view(old(out)@).push(whole_text_field(tag, s@)),
{
    let d = s.as_bytes();
    let copy = copy_range(d, 0, d.len());
    assert(copy@ =~= d@);
    out.push(Field { tag, payload: Payload::Bytes(copy) });
    assert(fields_view(out@) =~= fields_view(old(out)@).push(whole_text_field(tag, s@)));
}

/// Appends the field of an unsigned integer, if it has one.
pub fn push_uint64(out: &mut Vec<Field>, tag: u32, v: u64)
    ensures
        fields_view(final(out)@) == fields_view(old(out)@) + uint64_field(tag, v),
{
    if v != 0 {
        out.push(Field { tag, payload: Payload::Varint(v) });
    }
    assert(fields_view(out@) =~= fields_view(old(out)@) + uint64_field(tag, v));
}

/// Appends the field of a 32-bit integer, if it has one.
pub fn push_int32(out: &mut Vec<Field>, tag: u32, v: i32)
    ensures
        fields_view(final(out)@) == fields_view(old(out)@) + int32_field(tag, v),
{
    push_uint64(out, tag, int32_bits(v));
}

/// Appends the field of a 64-bit integer, if it has one.
pub fn push_int64(out: &mut Vec<Field>, tag: u32, v: i64)
    ensures
        fields_view(final(out)@) == fields_view(old(out)@) + int64_field(tag, v),
{
    push_uint64(out, tag, int64_bits(v));
}

/// Appends the field that holds the encoding of a message.
pub fn push_message<M: Message>(out: &mut Vec<Field>, tag: u32, m: &M)
    ensures
        fields_view(final(out)@) == fields_view(old(out)@).push(message_field::<M>(tag, m@)),
{
    let d = encode(m);
    out.push(Field { tag, payload: Payload::Bytes(d) });
    assert(fields_view(out@) =~= fields_view(old(out)@).push(message_field::<M>(tag, m@)));
}

/// The byte string that a field holds.
pub fn bytes_in(f: &Field) -> (r: Option<Vec<u8>>)
    ensures
        match spec_bytes_in(f@) {
            Some(d) => r is Some && r.unwrap()@ == d,
            None => r is None,
        },
{
    match &f.payload {
        Payload::Bytes(d) => {
            let copy = copy_range(d.as_slice(), 0, d.len());
            assert(copy@ =~= d@);
            Some(copy)
        },
        _ => None,
    }
}

/// The text that a field holds.
pub fn text_in(f: &Field) -> (r: Option<String>)
    ensures
        match spec_text_in(f@) {
            Some(s) => r is Some && r.unwrap()@ == s,
            None => r is None,
        },
{
    match bytes_in(f) {
        Some(d) => text_from_utf8(d),
        None => None,
    }
}

/// The unsigned integer that a field holds.
pub fn uint64_in(f: &Field) -> (r: Option<u64>)
    ensures
        r == spec_uint64_in(f@),
{
    match &f.payload {
        Payload::Varint(x) => Some(*x),
        _ => None,
    }
}

/// The 32-bit integer that a field holds.
pub fn int32_in(f: &Field) -> (r: Option<i32>)
    ensures
        r == spec_int32_in(f@),
{
    match &f.payload {
        Payload::Varint(x) => Some(int32_of_bits(*x)),
        _ => None,
    }
}

/// The 64-bit integer that a field holds.
pub fn int64_in(f: &Field) -> (r: Option<i64>)
    ensures
        r == spec_int64_in(f@),
{
    match &f.payload {
        Payload::Varint(x) => Some(int64_of_bits(*x)),
        _ => None,
    }
}

/// Merges the message in a field into `cur`, or into the blank message
/// where `cur` is absent, in a message that is `depth` short of the limit.
pub fn message_in<M: Message>(cur: Option<M>, f: &Field, depth: usize) -> (r: Option<M>)
    ensures
        match spec_message_in::<M>(view_of(cur), f@, depth as nat) {
            Some(v) => r is Some && r.unwrap()@ == v,
            None => r is None,
        },
{
    match &f.payload {
        Payload::Bytes(d) => {
            if depth == 0 {
                return None;
            }
            let start = match cur {
                Some(m) => m,
                None => M::blank(),
            };
            match merge_within(start, d.as_slice(), depth - 1) {
                Ok(m) => Some(m),
                Err(_) => None,
            }
        },
        _ => None,
    }
}

/// Appends the fields of a list of messages, one for each, in order.
pub fn push_messages<M: Message>(out: &mut Vec<Field>, tag: u32, items: &Vec<M>)
    ensures
        fields_view(final(out)@) == fields_view(old(out)@) + repeated_fields::<M>(
            tag,
            views_of(items@),
        ),
{
    let ghost start = fields_view(out@);
    let mut i: usize = 0;
    assert(fields_view(out@) =~= start + repeated_fields::<M>(tag, views_of(items@.take(0))));
    while i < items.len()
        invariant
            i <= items.len(),
            fields_view(out@) == start + repeated_fields::<M>(
                tag,
                views_of(items@.take(i as int)),
            ),
        decreases items.len() - i,
    {
        push_message(out, tag, &items[i]);
        i += 1;
        assert(fields_view(out@) =~= start + repeated_fields::<M>(
            tag,
            views_of(items@.take(i as int)),
        ));
    }
    assert(items@.take(items.len() as int) =~= items@);
}

/// Appends the fields of a list of texts, one for each, in order.
pub fn push_texts(out: &mut Vec<Field>, tag: u32, items: &Vec<String>)
    ensures
        fields_view(final(out)@) == fields_view(old(out)@) + repeated_text_fields(
            tag,
            texts_of(items@),
        ),
{
    let ghost start = fields_view(out@);
    let mut i: usize = 0;
    assert(fields_view(out@) =~= start + repeated_text_fields(tag, texts_of(items@.take(0))));
    while i < items.len()
        invariant
            i <= items.len(),
            fields_view(out@) == start + repeated_text_fields(tag, texts_of(items@.take(i as int))),
        decreases items.len() - i,
    {
        push_whole_text(out, tag, items[i].as_str());
        i += 1;
        assert(fields_view(out@) =~= start + repeated_text_fields(
            tag,
            texts_of(items@.take(i as int)),
        ));
    }
    assert(items@.take(items.len() as int) =~= items@);
}

} // verus!
