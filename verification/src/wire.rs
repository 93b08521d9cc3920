//! The protobuf wire format: base-128 integers and tagged fields.
//!
//! A message on the wire is a run of fields. Each field starts with a key,
//! which holds the field's tag and the kind of its payload, and the payload
//! follows. A group, which an opening and a closing key delimit, is read
//! as one field and passed over by every message. Messages inside messages
//! and groups inside groups are followed to a limit of depth.

use vstd::prelude::*;

verus! {

/// The bytes of `v` in base 128, least significant group first; every byte
/// but the last has its high bit set.
pub open spec fn varint_bytes(v: nat) -> Seq<u8>
    decreases v,
{
    if v < 128 {
        seq![v as u8]
    } else {
        seq![(v % 128 + 128) as u8] + varint_bytes(v / 128)
    }
}

/// The base-128 integer at the head of `b`, read from at most `n` bytes:
/// its value and the number of bytes it takes.
pub open spec fn varint_prefix(b: Seq<u8>, n: nat) -> Option<(nat, nat)>
    decreases n,
{
    if n == 0 || b.len() == 0 {
        None
    } else if b[0] < 128 {
        Some((b[0] as nat, 1nat))
    } else {
        match varint_prefix(b.skip(1), (n - 1) as nat) {
            Some((v, k)) => Some(((b[0] - 128 + 128 * v) as nat, k + 1)),
            None => None,
        }
    }
}

/// The 64-bit base-128 integer at the head of `b` and its length. It takes
/// at most ten bytes and its value fits 64 bits; padded forms are read.
pub open spec fn spec_read_varint(b: Seq<u8>) -> Option<(u64, nat)> {
    match varint_prefix(b, 10) {
        Some((v, k)) => if v <= u64::MAX {
            Some((v as u64, k))
        } else {
            None
        },
        None => None,
    }
}

/// The payload of a field, by kind.
pub ghost enum WireValue {
    /// A base-128 integer.
    Varint(u64),
    /// Eight bytes as they stand on the wire.
    Fixed64(Seq<u8>),
    /// A run of bytes with its length before it.
    Bytes(Seq<u8>),
    /// Four bytes as they stand on the wire.
    Fixed32(Seq<u8>),
    /// The bytes of a group after its opening key, up to and with its
    /// closing key.
    Group(Seq<u8>),
}

/// One field of a message on the wire.
pub ghost struct WireField {
    pub tag: u32,
    pub value: WireValue,
}

/// The number that a key holds for the kind of its payload.
pub open spec fn kind_number(value: WireValue) -> nat {
    match value {
        WireValue::Varint(_) => 0,
        WireValue::Fixed64(_) => 1,
        WireValue::Bytes(_) => 2,
        WireValue::Fixed32(_) => 5,
        WireValue::Group(_) => 3,
    }
}

/// A field as a message writes it: its tag is between 1 and 2^29 - 1, a
/// fixed payload has its four or eight bytes, and it is no group.
pub open spec fn field_ok(f: WireField) -> bool {
    &&& 1 <= f.tag < 0x2000_0000
    &&& match f.value {
        WireValue::Varint(_) => true,
        WireValue::Fixed64(d) => d.len() == 8,
        WireValue::Bytes(d) => d.len() <= u64::MAX,
        WireValue::Fixed32(d) => d.len() == 4,
        WireValue::Group(_) => false,
    }
}

/// A run of fields as a message writes them.
pub open spec fn fields_ok(fs: Seq<WireField>) -> bool {
    forall|i: int| 0 <= i < fs.len() ==> field_ok(#[trigger] fs[i])
}

/// The bytes of one field: its key, then its payload.
pub open spec fn field_bytes(f: WireField) -> Seq<u8> {
    varint_bytes(f.tag as nat * 8 + kind_number(f.value)) + match f.value {
        WireValue::Varint(v) => varint_bytes(v as nat),
        WireValue::Fixed64(d) => d,
        WireValue::Bytes(d) => varint_bytes(d.len()) + d,
        WireValue::Fixed32(d) => d,
        WireValue::Group(d) => d,
    }
}

/// The bytes of a run of fields, one after the other.
pub open spec fn fields_bytes(fs: Seq<WireField>) -> Seq<u8>
    decreases fs.len(),
{
    if fs.len() == 0 {
        Seq::empty()
    } else {
        fields_bytes(fs.drop_last()) + field_bytes(fs.last())
    }
}

/// The key at the head of `b`: its tag, the number of the kind of payload
/// that follows, and the number of bytes that the key takes. `None` where
/// the key is cut short, is over 32 bits, holds tag 0, or names a kind of
/// payload that does not exist (the numbers 6 and 7).
pub open spec fn spec_read_key(b: Seq<u8>) -> Option<(u32, u64, nat)> {
    match spec_read_varint(b) {
        Some((key, k)) => if key > u32::MAX || key / 8 == 0 || key % 8 > 5 {
            None
        } else {
            Some(((key / 8) as u32, key % 8, k))
        },
        None => None,
    }
}

/// How deep messages inside messages and groups inside groups are followed
/// from the outermost message.
pub const RECURSION_LIMIT: usize = 100;

/// The number of bytes that a payload of the given kind takes at the head
/// of `b`, inside a group that is `depth` short of the limit. `None` where
/// it is cut short or malformed, or the limit is reached.
pub open spec fn spec_skip(b: Seq<u8>, kind: u64, tag: u32, depth: nat) -> Option<nat>
    decreases depth, b.len(), 1nat,
{
    if depth == 0 {
        None
    } else if kind == 0 {
        match spec_read_varint(b) {
            Some((_, n)) => Some(n),
            None => None,
        }
    } else if kind == 1 {
        if b.len() < 8 {
            None
        } else {
            Some(8)
        }
    } else if kind == 2 {
        match spec_read_varint(b) {
            Some((len, n)) => if b.len() - n < len {
                None
            } else {
                Some(n + len as nat)
            },
            None => None,
        }
    } else if kind == 3 {
        spec_skip_group(b, tag, depth)
    } else if kind == 5 {
        if b.len() < 4 {
            None
        } else {
            Some(4)
        }
    } else {
        None
    }
}

/// The number of bytes at the head of `b` that the rest of a group takes,
/// up to and with its closing key, which holds the tag of the opening one.
/// The fields before the closing key are passed over, whatever their tags.
pub open spec fn spec_skip_group(b: Seq<u8>, tag: u32, depth: nat) -> Option<nat>
    decreases depth, b.len(), 0nat,
{
    if depth == 0 {
        None
    } else {
        match spec_read_key(b) {
            None => None,
            Some((t, kind, k)) => if kind == 4 {
                if t == tag {
                    Some(k)
                } else {
                    None
                }
            } else {
                match spec_skip(b.skip(k as int), kind, t, (depth - 1) as nat) {
                    None => None,
                    Some(n) => if 0 < k + n <= b.len() {
                        match spec_skip_group(b.skip((k + n) as int), tag, depth) {
                            Some(m) => Some(k + n + m),
                            None => None,
                        }
                    } else {
                        None
                    },
                }
            },
        }
    }
}

/// The field at the head of `b` and the number of bytes it takes, in a
/// message that is `depth` short of the limit. `None` where the key or the
/// payload is cut short or malformed, or a group goes over the limit.
pub open spec fn spec_read_field(b: Seq<u8>, depth: nat) -> Option<(WireField, nat)> {
    match spec_read_varint(b) {
        None => None,
        Some((key, k)) => {
            let body = b.skip(k as int);
            let tag = (key / 8) as u32;
            if key > u32::MAX || key / 8 == 0 {
                None
            } else if key % 8 == 0 {
                match spec_read_varint(body) {
                    Some((v, n)) => Some((WireField { tag, value: WireValue::Varint(v) }, k + n)),
                    None => None,
                }
            } else if key % 8 == 1 {
                if body.len() < 8 {
                    None
                } else {
                    Some((WireField { tag, value: WireValue::Fixed64(body.take(8)) }, k + 8))
                }
            } else if key % 8 == 2 {
                match spec_read_varint(body) {
                    Some((len, n)) => if body.len() - n < len {
                        None
                    } else {
                        Some(
                            (
                                WireField {
                                    tag,
                                    value: WireValue::Bytes(body.subrange(n as int, n + len)),
                                },
                                k + n + len as nat,
                            ),
                        )
                    },
                    None => None,
                }
            } else if key % 8 == 3 {
                match spec_skip_group(body, tag, depth) {
                    Some(n) => Some(
                        (WireField { tag, value: WireValue::Group(body.take(n as int)) }, k + n),
                    ),
                    None => None,
                }
            } else if key % 8 == 5 {
                if body.len() < 4 {
                    None
                } else {
                    Some((WireField { tag, value: WireValue::Fixed32(body.take(4)) }, k + 4))
                }
            } else {
                None
            }
        },
    }
}

/// The fields that `b` is made of, in order, in a message that is `depth`
/// short of the limit. `None` where some field is malformed or the last one
/// is cut short.
pub open spec fn spec_read_fields(b: Seq<u8>, depth: nat) -> Option<Seq<WireField>>
    decreases b.len(),
{
    if b.len() == 0 {
        Some(Seq::empty())
    } else {
        match spec_read_field(b, depth) {
            Some((f, n)) => if 0 < n <= b.len() {
                match spec_read_fields(b.skip(n as int), depth) {
                    Some(rest) => Some(seq![f] + rest),
                    None => None,
                }
            } else {
                None
            },
            None => None,
        }
    }
}

/// A base-128 integer that is read takes at least one byte, at most `n`, and
/// no more than there are.
pub proof fn lemma_varint_prefix_len(b: Seq<u8>, n: nat)
    ensures
        match varint_prefix(b, n) {
            Some((v, k)) => 1 <= k <= n && k <= b.len(),
            None => true,
        },
    decreases n,
{
    if n != 0 && b.len() != 0 && b[0] >= 128 {
        lemma_varint_prefix_len(b.skip(1), (n - 1) as nat);
    }
}

/// A payload that is passed over takes no more bytes than there are.
pub proof fn lemma_skip_len(b: Seq<u8>, kind: u64, tag: u32, depth: nat)
    ensures
        match spec_skip(b, kind, tag, depth) {
            Some(n) => n <= b.len(),
            None => true,
        },
    decreases depth, b.len(), 1nat,
{
    lemma_varint_prefix_len(b, 10);
    if depth != 0 && kind == 3 {
        lemma_skip_group_len(b, tag, depth);
    }
}

/// The rest of a group takes at least one byte and no more than there are.
pub proof fn lemma_skip_group_len(b: Seq<u8>, tag: u32, depth: nat)
    ensures
        match spec_skip_group(b, tag, depth) {
            Some(n) => 1 <= n <= b.len(),
            None => true,
        },
    decreases depth, b.len(), 0nat,
{
    lemma_varint_prefix_len(b, 10);
    if depth != 0 {
        match spec_read_key(b) {
            None => {},
            Some((t, kind, k)) => {
                if kind != 4 {
                    lemma_skip_len(b.skip(k as int), kind, t, (depth - 1) as nat);
                    match spec_skip(b.skip(k as int), kind, t, (depth - 1) as nat) {
                        None => {},
                        Some(n) => {
                            if 0 < k + n <= b.len() {
                                lemma_skip_group_len(b.skip((k + n) as int), tag, depth);
                            }
                        },
                    }
                }
            },
        }
    }
}

/// A field that is read takes at least one byte and no more than there are,
/// and is a group or a field as a message writes it.
pub proof fn lemma_read_field_len(b: Seq<u8>, depth: nat)
    ensures
        match spec_read_field(b, depth) {
            Some((f, n)) => 1 <= n <= b.len() && (field_ok(f) || f.value is Group),
            None => true,
        },
{
    lemma_varint_prefix_len(b, 10);
    match spec_read_varint(b) {
        None => {},
        Some((key, k)) => {
            lemma_varint_prefix_len(b.skip(k as int), 10);
            if key <= u32::MAX {
                lemma_skip_group_len(b.skip(k as int), (key / 8) as u32, depth);
            }
        },
    }
}

/// A 64-bit integer takes between one and ten bytes in base 128.
pub proof fn lemma_varint_bytes_len(v: u64)
    ensures
        1 <= varint_bytes(v as nat).len() <= 10,
{
    reveal_with_fuel(varint_bytes, 11);
}

/// Reading what was written gives the value back, whatever follows it.
pub proof fn lemma_varint_prefix_round_trip(v: nat, rest: Seq<u8>, n: nat)
    requires
        varint_bytes(v).len() <= n,
    ensures
        varint_prefix(varint_bytes(v) + rest, n) == Some((v, varint_bytes(v).len())),
    decreases v,
{
    let b = varint_bytes(v) + rest;
    if v < 128 {
        assert(b[0] == v as u8);
    } else {
        let tail = varint_bytes(v / 128);
        assert(b[0] == (v % 128 + 128) as u8);
        assert(b.skip(1) =~= tail + rest);
        lemma_varint_prefix_round_trip(v / 128, rest, (n - 1) as nat);
    }
}

/// Reading a written 64-bit integer gives it back, whatever follows it.
pub proof fn lemma_varint_round_trip(v: u64, rest: Seq<u8>)
    ensures
        spec_read_varint(varint_bytes(v as nat) + rest) == Some(
            (v, varint_bytes(v as nat).len()),
        ),
{
    lemma_varint_bytes_len(v);
    lemma_varint_prefix_round_trip(v as nat, rest, 10);
}

/// Reading a written field gives it back, whatever follows it.
pub proof fn lemma_field_round_trip(f: WireField, rest: Seq<u8>, depth: nat)
    requires
        field_ok(f),
    ensures
        spec_read_field(field_bytes(f) + rest, depth) == Some((f, field_bytes(f).len())),
{
    let key = (f.tag as nat * 8 + kind_number(f.value)) as u64;
    let kb = varint_bytes(key as nat);
    let payload = match f.value {
        WireValue::Varint(v) => varint_bytes(v as nat),
        WireValue::Fixed64(d) => d,
        WireValue::Bytes(d) => varint_bytes(d.len()) + d,
        WireValue::Fixed32(d) => d,
        WireValue::Group(d) => d,
    };
    let b = field_bytes(f) + rest;
    assert(b =~= kb + (payload + rest));
    lemma_varint_round_trip(key, payload + rest);
    let body = b.skip(kb.len() as int);
    assert(body =~= payload + rest);
    assert(key / 8 == f.tag);
    assert(key % 8 == kind_number(f.value));
    match f.value {
        WireValue::Varint(v) => {
            lemma_varint_round_trip(v, rest);
        },
        WireValue::Fixed64(d) => {
            assert(body.take(8) =~= d);
        },
        WireValue::Bytes(d) => {
            let lb = varint_bytes(d.len());
            assert(body =~= lb + (d + rest));
            lemma_varint_round_trip(d.len() as u64, d + rest);
            assert(body.subrange(lb.len() as int, (lb.len() + d.len()) as int) =~= d);
        },
        WireValue::Fixed32(d) => {
            assert(body.take(4) =~= d);
        },
        WireValue::Group(_) => {},
    }
}

/// The bytes of a run of fields start with the bytes of its first field.
pub proof fn lemma_fields_bytes_front(f: WireField, fs: Seq<WireField>)
    ensures
        fields_bytes(seq![f] + fs) == field_bytes(f) + fields_bytes(fs),
    decreases fs.len(),
{
    let all = seq![f] + fs;
    if fs.len() == 0 {
        assert(all.drop_last() =~= Seq::<WireField>::empty());
        assert(fields_bytes(all.drop_last()) =~= Seq::<u8>::empty());
        assert(fields_bytes(all) =~= field_bytes(f));
        assert(field_bytes(f) + fields_bytes(fs) =~= field_bytes(f));
    } else {
        assert(all.drop_last() =~= seq![f] + fs.drop_last());
        lemma_fields_bytes_front(f, fs.drop_last());
        assert(all.last() == fs.last());
        assert(fields_bytes(all) =~= field_bytes(f) + fields_bytes(fs));
    }
}

/// Reading the bytes of a run of fields as a message writes them gives the
/// fields back, whatever the depth.
pub proof fn lemma_fields_round_trip(fs: Seq<WireField>, depth: nat)
    requires
        fields_ok(fs),
    ensures
        spec_read_fields(fields_bytes(fs), depth) == Some(fs),
    decreases fs.len(),
{
    if fs.len() == 0 {
    } else {
        let f = fs[0];
        let rest = fs.skip(1);
        assert(fs =~= seq![f] + rest);
        lemma_fields_bytes_front(f, rest);
        let b = fields_bytes(fs);
        assert(b == field_bytes(f) + fields_bytes(rest));
        lemma_field_round_trip(f, fields_bytes(rest), depth);
        lemma_read_field_len(b, depth);
        assert(b.skip(field_bytes(f).len() as int) =~= fields_bytes(rest));
        assert(fields_ok(rest)) by {
            assert forall|i: int| 0 <= i < rest.len() implies field_ok(#[trigger] rest[i]) by {
                assert(rest[i] == fs[i + 1]);
            }
        }
        lemma_fields_round_trip(rest, depth);
    }
}

/// The payload of a field as the library holds it.
#[derive(Debug)]
pub enum Payload {
    /// A base-128 integer.
    Varint(u64),
    /// Eight bytes as they stand on the wire.
    Fixed64(Vec<u8>),
    /// A run of bytes with its length before it.
    Bytes(Vec<u8>),
    /// Four bytes as they stand on the wire.
    Fixed32(Vec<u8>),
    /// The bytes of a group after its opening key, up to and with its
    /// closing key.
    Group(Vec<u8>),
}

/// One field of a message as the library holds it.
#[derive(Debug)]
pub struct Field {
    pub tag: u32,
    pub payload: Payload,
}

impl View for Payload {
    type V = WireValue;

    open spec fn view(&self) -> WireValue {
        match self {
            Payload::Varint(v) => WireValue::Varint(*v),
            Payload::Fixed64(d) => WireValue::Fixed64(d@),
            Payload::Bytes(d) => WireValue::Bytes(d@),
            Payload::Fixed32(d) => WireValue::Fixed32(d@),
            Payload::Group(d) => WireValue::Group(d@),
        }
    }
}

impl View for Field {
    type V = WireField;

    open spec fn view(&self) -> WireField {
        WireField { tag: self.tag, value: self.payload@ }
    }
}

/// The fields that a vector of fields stands for.
pub open spec fn fields_view(fs: Seq<Field>) -> Seq<WireField> {
    fs.map_values(|f: Field| f@)
}

/// A copy of the bytes of `b` from `from` up to `to`.
pub(crate) fn copy_range(b: &[u8], from: usize, to: usize) -> (r: Vec<u8>)
    requires
        from <= to <= b.len(),
    ensures
        r@ == b@.subrange(from as int, to as int),
{
    let mut r: Vec<u8> = Vec::new();
    let mut i: usize = from;
    while i < to
        invariant
            from <= i <= to <= b.len(),
            r@ == b@.subrange(from as int, i as int),
        decreases to - i,
    {
        r.push(b[i]);
        i += 1;
        assert(r@ =~= b@.subrange(from as int, i as int));
    }
    r
}

/// Appends the bytes of `d` to `out`.
pub(crate) fn append_bytes(out: &mut Vec<u8>, d: &[u8])
    ensures
        final(out)@ == old(out)@ + d@,
{
    let ghost start = out@;
    let mut i: usize = 0;
    while i < d.len()
        invariant
            i <= d.len(),
            out@ == start + d@.take(i as int),
        decreases d.len() - i,
    {
        out.push(d[i]);
        i += 1;
        assert(out@ =~= start + d@.take(i as int));
    }
    assert(d@.take(d.len() as int) =~= d@);
}

/// Appends `v` in base 128 to `out`.
pub fn write_varint(v: u64, out: &mut Vec<u8>)
    ensures
        final(out)@ == old(out)@ + varint_bytes(v as nat),
{
    let ghost start = out@;
    let mut rest: u64 = v;
    while rest >= 128
        invariant
            out@ + varint_bytes(rest as nat) == start + varint_bytes(v as nat),
        decreases rest,
    {
        let ghost before = out@;
        let low: u8 = (rest % 128 + 128) as u8;
        out.push(low);
        assert(out@ + varint_bytes((rest / 128) as nat) =~= before + varint_bytes(rest as nat));
        rest = rest / 128;
    }
    let ghost before = out@;
    out.push(rest as u8);
    assert(out@ =~= before + varint_bytes(rest as nat));
}

/// The base-128 integer that starts at `pos`, read from at most `n` bytes,
/// and the position after it.
fn read_varint_within(b: &[u8], pos: usize, n: usize) -> (r: Option<(u64, usize)>)
    requires
        pos <= b.len(),
    ensures
        r == match varint_prefix(b@.skip(pos as int), n as nat) {
            Some((v, k)) => if v <= u64::MAX {
                Some((v as u64, (pos + k) as usize))
            } else {
                None
            },
            None => None,
        },
        r matches Some((_, end)) ==> pos < end <= b.len(),
    decreases n,
{
    if n == 0 || pos >= b.len() {
        return None;
    }
    let byte: u8 = b[pos];
    proof {
        lemma_varint_prefix_len(b@.skip(pos as int), n as nat);
        assert(b@.skip(pos as int)[0] == byte);
        assert(b@.skip(pos as int).skip(1) =~= b@.skip(pos + 1));
    }
    if byte < 128 {
        return Some((byte as u64, pos + 1));
    }
    match read_varint_within(b, pos + 1, n - 1) {
        None => None,
        Some((v, end)) => {
            let low: u64 = (byte - 128) as u64;
            if v > (u64::MAX - low) / 128 {
                None
            } else {
                Some((low + 128 * v, end))
            }
        },
    }
}

/// The 64-bit base-128 integer that starts at `pos` and the position after it.
fn read_varint_at(b: &[u8], pos: usize) -> (r: Option<(u64, usize)>)
    requires
        pos <= b.len(),
    ensures
        r == match spec_read_varint(b@.skip(pos as int)) {
            Some((v, k)) => Some((v, (pos + k) as usize)),
            None => None,
        },
        r matches Some((_, end)) ==> pos < end <= b.len(),
{
    read_varint_within(b, pos, 10)
}

/// The 64-bit base-128 integer at the head of `b` and the number of bytes
/// it takes.
pub fn read_varint(b: &[u8]) -> (r: Option<(u64, usize)>)
    ensures
        r == match spec_read_varint(b@) {
            Some((v, k)) => Some((v, k as usize)),
            None => None,
        },
        r matches Some((_, k)) ==> 1 <= k <= 10 && k <= b.len(),
{
    proof {
        assert(b@.skip(0) =~= b@);
        lemma_varint_prefix_len(b@, 10);
    }
    read_varint_at(b, 0)
}

/// The key that starts at `pos`: its tag, the number of the kind of payload
/// that follows, and the position after the key.
fn read_key_at(b: &[u8], pos: usize) -> (r: Option<(u32, u64, usize)>)
    requires
        pos <= b.len(),
    ensures
        r == match spec_read_key(b@.skip(pos as int)) {
            Some((tag, kind, k)) => Some((tag, kind, (pos + k) as usize)),
            None => None,
        },
        r matches Some((_, _, end)) ==> pos < end <= b.len(),
{
    proof {
        lemma_varint_prefix_len(b@.skip(pos as int), 10);
    }
    match read_varint_at(b, pos) {
        Some((key, end)) => {
            if key > 0xFFFF_FFFF || key / 8 == 0 || key % 8 > 5 {
                None
            } else {
                Some(((key / 8) as u32, key % 8, end))
            }
        },
        None => None,
    }
}

/// The position after the payload of the given kind that starts at `pos`.
fn skip_at(b: &[u8], pos: usize, kind: u64, tag: u32, depth: usize) -> (r: Option<usize>)
    requires
        pos <= b.len(),
    ensures
        r == match spec_skip(b@.skip(pos as int), kind, tag, depth as nat) {
            Some(n) => Some((pos + n) as usize),
            None => None,
        },
        r matches Some(end) ==> pos <= end <= b.len(),
    decreases depth, 1nat,
{
    proof {
        lemma_varint_prefix_len(b@.skip(pos as int), 10);
    }
    if depth == 0 {
        None
    } else if kind == 0 {
        match read_varint_at(b, pos) {
            Some((_, end)) => Some(end),
            None => None,
        }
    } else if kind == 1 {
        if b.len() - pos < 8 {
            None
        } else {
            Some(pos + 8)
        }
    } else if kind == 2 {
        match read_varint_at(b, pos) {
            Some((len, p)) => {
                if ((b.len() - p) as u64) < len {
                    None
                } else {
                    Some(p + len as usize)
                }
            },
            None => None,
        }
    } else if kind == 3 {
        skip_group_at(b, pos, tag, depth)
    } else if kind == 5 {
        if b.len() - pos < 4 {
            None
        } else {
            Some(pos + 4)
        }
    } else {
        None
    }
}

/// The position after the closing key of the group whose opening key, with
/// the given tag, ends at `pos`.
fn skip_group_at(b: &[u8], pos: usize, tag: u32, depth: usize) -> (r: Option<usize>)
    requires
        pos <= b.len(),
    ensures
        r == match spec_skip_group(b@.skip(pos as int), tag, depth as nat) {
            Some(n) => Some((pos + n) as usize),
            None => None,
        },
        r matches Some(end) ==> pos < end <= b.len(),
    decreases depth, 0nat,
{
    if depth == 0 {
        return None;
    }
    let ghost whole = spec_skip_group(b@.skip(pos as int), tag, depth as nat);
    let mut cur: usize = pos;
    loop
        invariant
            depth > 0,
            pos <= cur <= b.len(),
            whole == spec_skip_group(b@.skip(pos as int), tag, depth as nat),
            whole == match spec_skip_group(b@.skip(cur as int), tag, depth as nat) {
                Some(m) => Some((cur - pos + m) as nat),
                None => None,
            },
        decreases b.len() - cur,
    {
        let ghost src = b@.skip(cur as int);
        proof {
            lemma_varint_prefix_len(src, 10);
            lemma_skip_group_len(src, tag, depth as nat);
        }
        let (t, kind, after_key) = match read_key_at(b, cur) {
            Some(x) => x,
            None => {
                return None;
            },
        };
        if kind == 4 {
            if t == tag {
                return Some(after_key);
            } else {
                return None;
            }
        }
        proof {
            assert(src.skip(after_key - cur) =~= b@.skip(after_key as int));
            lemma_skip_len(b@.skip(after_key as int), kind, t, (depth - 1) as nat);
        }
        let end = match skip_at(b, after_key, kind, t, depth - 1) {
            Some(e) => e,
            None => {
                return None;
            },
        };
        proof {
            assert(src.skip(end - cur) =~= b@.skip(end as int));
        }
        cur = end;
    }
}

/// The field that starts at `pos` and the position after it.
fn read_field_at(b: &[u8], pos: usize, depth: usize) -> (r: Option<(Field, usize)>)
    requires
        pos <= b.len(),
    ensures
        match (r, spec_read_field(b@.skip(pos as int), depth as nat)) {
            (Some((f, end)), Some((g, n))) => f@ == g && end == pos + n && pos < end <= b.len(),
            (None, None) => true,
            _ => false,
        },
{
    let ghost src = b@.skip(pos as int);
    proof {
        lemma_varint_prefix_len(src, 10);
    }
    let (key, after_key) = match read_varint_at(b, pos) {
        Some(x) => x,
        None => {
            return None;
        },
    };
    if key > 0xFFFF_FFFF || key / 8 == 0 {
        return None;
    }
    let tag: u32 = (key / 8) as u32;
    let kind: u64 = key % 8;
    let ghost body = src.skip(after_key - pos);
    assert(body =~= b@.skip(after_key as int));
    proof {
        lemma_varint_prefix_len(body, 10);
    }
    if kind == 0 {
        match read_varint_at(b, after_key) {
            Some((v, end)) => Some((Field { tag, payload: Payload::Varint(v) }, end)),
            None => None,
        }
    } else if kind == 1 {
        if b.len() - after_key < 8 {
            None
        } else {
            let d = copy_range(b, after_key, after_key + 8);
            assert(d@ =~= body.take(8));
            Some((Field { tag, payload: Payload::Fixed64(d) }, after_key + 8))
        }
    } else if kind == 2 {
        match read_varint_at(b, after_key) {
            Some((len, after_len)) => {
                if ((b.len() - after_len) as u64) < len {
                    None
                } else {
                    let n: usize = len as usize;
                    let d = copy_range(b, after_len, after_len + n);
                    assert(d@ =~= body.subrange(after_len - after_key, after_len - after_key + len));
                    Some((Field { tag, payload: Payload::Bytes(d) }, after_len + n))
                }
            },
            None => None,
        }
    } else if kind == 3 {
        proof {
            lemma_skip_group_len(body, tag, depth as nat);
        }
        match skip_group_at(b, after_key, tag, depth) {
            Some(end) => {
                let d = copy_range(b, after_key, end);
                assert(d@ =~= body.take(end - after_key));
                Some((Field { tag, payload: Payload::Group(d) }, end))
            },
            None => None,
        }
    } else if kind == 5 {
        if b.len() - after_key < 4 {
            None
        } else {
            let d = copy_range(b, after_key, after_key + 4);
            assert(d@ =~= body.take(4));
            Some((Field { tag, payload: Payload::Fixed32(d) }, after_key + 4))
        }
    } else {
        None
    }
}

/// The fields that `b` is made of, in order, in a message that is `depth`
/// short of the limit; `None` where `b` is malformed or cut short.
pub fn read_fields(b: &[u8], depth: usize) -> (r: Option<Vec<Field>>)
    ensures
        match spec_read_fields(b@, depth as nat) {
            Some(fs) => r is Some && fields_view(r.unwrap()@) == fs,
            None => r is None,
        },
{
    let mut out: Vec<Field> = Vec::new();
    let mut pos: usize = 0;
    assert(b@.skip(0) =~= b@);
    assert(fields_view(out@) =~= Seq::<WireField>::empty());
    assert(forall|s: Seq<WireField>| #[trigger] (Seq::<WireField>::empty() + s) =~= s);
    while pos < b.len()
        invariant
            pos <= b.len(),
            spec_read_fields(b@, depth as nat) == match spec_read_fields(
                b@.skip(pos as int),
                depth as nat,
            ) {
                Some(rest) => Some(fields_view(out@) + rest),
                None => None,
            },
        decreases b.len() - pos,
    {
        let ghost src = b@.skip(pos as int);
        let ghost done = fields_view(out@);
        match read_field_at(b, pos, depth) {
            None => {
                return None;
            },
            Some((f, end)) => {
                proof {
                    assert(src.skip(end - pos) =~= b@.skip(end as int));
                    match spec_read_fields(b@.skip(end as int), depth as nat) {
                        Some(rest) => {
                            assert(done.push(f@) + rest =~= done + (seq![f@] + rest));
                        },
                        None => {},
                    }
                    assert(fields_view(out@.push(f)) =~= done.push(f@));
                }
                out.push(f);
                pos = end;
            },
        }
    }
    assert(fields_view(out@) + Seq::<WireField>::empty() =~= fields_view(out@));
    Some(out)
}

/// Appends the bytes of one field to `out`.
pub fn write_field(f: &Field, out: &mut Vec<u8>)
    ensures
        final(out)@ == old(out)@ + field_bytes(f@),
{
    let ghost start = out@;
    let tag: u64 = f.tag as u64;
    match &f.payload {
        Payload::Varint(v) => {
            write_varint(tag * 8, out);
            write_varint(*v, out);
        },
        Payload::Fixed64(d) => {
            write_varint(tag * 8 + 1, out);
            append_bytes(out, d.as_slice());
        },
        Payload::Bytes(d) => {
            write_varint(tag * 8 + 2, out);
            write_varint(d.len() as u64, out);
            append_bytes(out, d.as_slice());
        },
        Payload::Fixed32(d) => {
            write_varint(tag * 8 + 5, out);
            append_bytes(out, d.as_slice());
        },
        Payload::Group(d) => {
            write_varint(tag * 8 + 3, out);
            append_bytes(out, d.as_slice());
        },
    }
    assert(out@ =~= start + field_bytes(f@));
}

/// The bytes of a run of fields, one after the other.
pub fn write_fields(fs: &Vec<Field>) -> (r: Vec<u8>)
    ensures
        r@ == fields_bytes(fields_view(fs@)),
{
    let mut out: Vec<u8> = Vec::new();
    let mut i: usize = 0;
    assert(fields_view(fs@.take(0)) =~= Seq::<WireField>::empty());
    while i < fs.len()
        invariant
            i <= fs.len(),
            out@ == fields_bytes(fields_view(fs@.take(i as int))),
        decreases fs.len() - i,
    {
        proof {
            let next = fields_view(fs@.take(i + 1));
            assert(next.drop_last() =~= fields_view(fs@.take(i as int)));
            assert(next.last() == fs@[i as int]@);
        }
        write_field(&fs[i], &mut out);
        i += 1;
    }
    assert(fs@.take(fs.len() as int) =~= fs@);
    out
}

} // verus!
