//! What every message type has in common: a view, the wire fields that stand
//! for a value, the rule that merges one wire field into a value, and the
//! encoding and decoding that follow from them.

use vstd::prelude::*;
use crate::wire::{
    fields_bytes, fields_ok, fields_view, lemma_fields_round_trip, read_fields, spec_read_fields,
    write_fields, Field, WireField, RECURSION_LIMIT,
};

verus! {

/// The one way in which decoding fails: the bytes are malformed or cut
/// short, a field that the message declares holds a payload of the wrong
/// kind or text that is not UTF-8, or messages or groups stand inside one
/// another deeper than the limit.
#[derive(Clone, Copy, Debug, PartialEq, Eq)]
pub struct DecodeError {}

/// The shape of a message of the schema: what its fields are on the wire.
pub trait Layout: View + Sized {
    /// The value with every field at its default.
    spec fn spec_blank() -> Self::V;

    /// The wire fields that stand for a value, in the order of their tags.
    /// A scalar at its default and an absent message give no field.
    spec fn spec_fields(v: Self::V) -> Seq<WireField>;

    /// The value after one wire field was merged into it, in a message that
    /// is `depth` short of the limit; `None` where the field has a declared
    /// tag and a payload that does not fit it, and for a field of another
    /// tag where the limit is reached.
    spec fn spec_merge_field(v: Self::V, f: WireField, depth: nat) -> Option<Self::V>;

    /// How many messages stand inside one another in a value of this type,
    /// at most, below the value itself.
    spec fn spec_height() -> nat;

    /// Whether the message declares a field with this tag.
    spec fn spec_known(tag: u32) -> bool;

    /// Whether every length in the value, and in the messages inside it,
    /// fits the 64 bits that the wire gives a length.
    spec fn spec_fits(v: Self::V) -> bool;
}

/// A message of the schema: a value that is built, taken apart into wire
/// fields and merged with them as its layout says.
pub trait Message: Layout {
    /// The message with every field at its default.
    fn blank() -> (r: Self)
        ensures
            r@ == Self::spec_blank(),
    ;

    /// The wire fields that stand for the message.
    fn fields(&self) -> (r: Vec<Field>)
        ensures
            fields_view(r@) == Self::spec_fields(self@),
    ;

    /// The message after one wire field was merged into it, in a message
    /// that is `depth` short of the limit.
    fn merge_field(self, f: &Field, depth: usize) -> (r: Option<Self>)
        ensures
            match Self::spec_merge_field(self@, f@, depth as nat) {
                Some(v) => r is Some && r.unwrap()@ == v,
                None => r is None,
            },
    ;

    /// Merging a value's own fields into the blank value gives the value,
    /// where the limit leaves room for the messages inside it.
    proof fn lemma_own_fields(v: Self::V, depth: nat)
        requires
            Self::spec_fits(v),
            depth >= Self::spec_height(),
        ensures
            fields_ok(Self::spec_fields(v)),
            spec_merge::<Self>(Self::spec_blank(), Self::spec_fields(v), depth) == Some(v),
    ;

    /// A field whose tag the message does not declare changes nothing,
    /// short of the limit.
    proof fn lemma_unknown_field(v: Self::V, f: WireField, depth: nat)
        requires
            !Self::spec_known(f.tag),
            depth > 0,
        ensures
            Self::spec_merge_field(v, f, depth) == Some(v),
    ;
}

/// The value after a run of wire fields was merged into it, first to last.
pub open spec fn spec_merge<M: Layout>(v: M::V, fs: Seq<WireField>, depth: nat) -> Option<M::V>
    decreases fs.len(),
{
    if fs.len() == 0 {
        Some(v)
    } else {
        match spec_merge::<M>(v, fs.drop_last(), depth) {
            Some(u) => M::spec_merge_field(u, fs.last(), depth),
            None => None,
        }
    }
}

/// The value after the fields that `b` is made of were merged into it, in
/// a message that is `depth` short of the limit.
pub open spec fn spec_merge_bytes<M: Layout>(v: M::V, b: Seq<u8>, depth: nat) -> Option<M::V> {
    match spec_read_fields(b, depth) {
        Some(fs) => spec_merge::<M>(v, fs, depth),
        None => None,
    }
}

/// The value that `b` decodes to: its fields merged into the blank value,
/// with the whole limit of depth ahead.
pub open spec fn spec_decode<M: Layout>(b: Seq<u8>) -> Option<M::V> {
    spec_merge_bytes::<M>(M::spec_blank(), b, RECURSION_LIMIT as nat)
}

/// The bytes that a value encodes to: those of its wire fields.
pub open spec fn spec_encode<M: Layout>(v: M::V) -> Seq<u8> {
    fields_bytes(M::spec_fields(v))
}

/// Whether a value can stand inside another message: it fits, and so does
/// the length of its encoding.
pub open spec fn spec_fits_inside<M: Layout>(v: M::V) -> bool {
    M::spec_fits(v) && spec_encode::<M>(v).len() <= u64::MAX
}

/// The bytes of a message.
pub fn encode<M: Message>(m: &M) -> (r: Vec<u8>)
    ensures
        r@ == spec_encode::<M>(m@),
{
    let fs = m.fields();
    write_fields(&fs)
}

/// Merges the fields that `b` is made of into `m`, first to last, with the
/// whole limit of depth ahead.
pub fn merge<M: Message>(m: M, b: &[u8]) -> (r: Result<M, DecodeError>)
    ensures
        match spec_merge_bytes::<M>(m@, b@, RECURSION_LIMIT as nat) {
            Some(v) => r is Ok && r.unwrap()@ == v,
            None => r is Err,
        },
{
    merge_within(m, b, RECURSION_LIMIT)
}

/// Merges the fields that `b` is made of into `m`, first to last, in a
/// message that is `depth` short of the limit.
pub fn merge_within<M: Message>(m: M, b: &[u8], depth: usize) -> (r: Result<M, DecodeError>)
    ensures
        match spec_merge_bytes::<M>(m@, b@, depth as nat) {
            Some(v) => r is Ok && r.unwrap()@ == v,
            None => r is Err,
        },
{
    let fs = match read_fields(b, depth) {
        Some(fs) => fs,
        None => {
            return Err(DecodeError {  });
        },
    };
    let ghost all = fields_view(fs@);
    let ghost start = m@;
    let mut cur: M = m;
    let mut i: usize = 0;
    assert(all.take(0) =~= Seq::<WireField>::empty());
    while i < fs.len()
        invariant
            i <= fs.len(),
            all == fields_view(fs@),
            spec_read_fields(b@, depth as nat) == Some(all),
            start == m@,
            spec_merge::<M>(start, all.take(i as int), depth as nat) == Some(cur@),
        decreases fs.len() - i,
    {
        proof {
            let next = all.take(i + 1);
            assert(next.drop_last() =~= all.take(i as int));
            assert(next.last() == fs@[i as int]@);
            assert(spec_merge::<M>(start, next, depth as nat) == M::spec_merge_field(
                cur@,
                fs@[i as int]@,
                depth as nat,
            ));
        }
        match cur.merge_field(&fs[i], depth) {
            Some(next) => {
                cur = next;
            },
            None => {
                proof {
                    lemma_merge_fails_on::<M>(start, all, i + 1, depth as nat);
                }
                return Err(DecodeError {  });
            },
        }
        i += 1;
    }
    assert(all.take(fs.len() as int) =~= all);
    Ok(cur)
}

/// The message that `b` decodes to. Fields that the message does not
/// declare are passed over; of a scalar that stands twice the last counts.
pub fn decode<M: Message>(b: &[u8]) -> (r: Result<M, DecodeError>)
    ensures
        match spec_decode::<M>(b@) {
            Some(v) => r is Ok && r.unwrap()@ == v,
            None => r is Err,
        },
{
    merge(M::blank(), b)
}

/// Where merging fails on the first `n` fields, it fails on all of them.
pub proof fn lemma_merge_fails_on<M: Layout>(v: M::V, fs: Seq<WireField>, n: int, depth: nat)
    requires
        0 <= n <= fs.len(),
        spec_merge::<M>(v, fs.take(n), depth) is None,
    ensures
        spec_merge::<M>(v, fs, depth) is None,
    decreases fs.len(),
{
    if n < fs.len() {
        assert(fs.drop_last().take(n) =~= fs.take(n));
        lemma_merge_fails_on::<M>(v, fs.drop_last(), n, depth);
    } else {
        assert(fs.take(n) =~= fs);
    }
}

/// Merging two runs of fields, one after the other, is merging the first
/// and then the second.
pub proof fn lemma_merge_concat<M: Layout>(
    v: M::V,
    a: Seq<WireField>,
    b: Seq<WireField>,
    depth: nat,
)
    ensures
        spec_merge::<M>(v, a + b, depth) == match spec_merge::<M>(v, a, depth) {
            Some(u) => spec_merge::<M>(u, b, depth),
            None => None,
        },
    decreases b.len(),
{
    if b.len() == 0 {
        assert(a + b =~= a);
    } else {
        assert((a + b).drop_last() =~= a + b.drop_last());
        assert((a + b).last() == b.last());
        lemma_merge_concat::<M>(v, a, b.drop_last(), depth);
    }
}

/// Merging a run of at most one field.
pub proof fn lemma_merge_short<M: Layout>(v: M::V, fs: Seq<WireField>, depth: nat)
    requires
        fs.len() <= 1,
    ensures
        spec_merge::<M>(v, fs, depth) == if fs.len() == 0 {
            Some(v)
        } else {
            M::spec_merge_field(v, fs[0], depth)
        },
{
    if fs.len() == 1 {
        assert(spec_merge::<M>(v, fs.drop_last(), depth) == Some(v));
    }
}

/// Merging what a value encodes to into the blank value gives the value,
/// where the limit leaves room for the messages inside it.
pub proof fn lemma_round_trip_within<M: Message>(v: M::V, depth: nat)
    requires
        M::spec_fits(v),
        depth >= M::spec_height(),
    ensures
        spec_merge_bytes::<M>(M::spec_blank(), spec_encode::<M>(v), depth) == Some(v),
{
    M::lemma_own_fields(v, depth);
    lemma_fields_round_trip(M::spec_fields(v), depth);
}

/// Decoding what a value encodes to gives the value back.
pub proof fn lemma_round_trip<M: Message>(v: M::V)
    requires
        M::spec_fits(v),
        M::spec_height() <= RECURSION_LIMIT,
    ensures
        spec_decode::<M>(spec_encode::<M>(v)) == Some(v),
{
    lemma_round_trip_within::<M>(v, RECURSION_LIMIT as nat);
}

/// The fields of `fs` whose tags the message declares, in their order.
pub open spec fn spec_known_fields<M: Layout>(fs: Seq<WireField>) -> Seq<WireField> {
    fs.filter(|f: WireField| M::spec_known(f.tag))
}

/// Fields whose tags the message does not declare do not change what a run
/// of fields merges to, wherever they stand in it.
pub proof fn lemma_unknown_fields_ignored<M: Message>(v: M::V, fs: Seq<WireField>, depth: nat)
    requires
        depth > 0,
    ensures
        spec_merge::<M>(v, fs, depth) == spec_merge::<M>(v, spec_known_fields::<M>(fs), depth),
    decreases fs.len(),
{
    reveal(Seq::filter);
    let keep = |f: WireField| M::spec_known(f.tag);
    if fs.len() == 0 {
        assert(fs.filter(keep) =~= fs);
    } else {
        let front = fs.drop_last();
        let last = fs.last();
        lemma_unknown_fields_ignored::<M>(v, front, depth);
        if M::spec_known(last.tag) {
            assert(fs.filter(keep) =~= front.filter(keep).push(last));
            assert(fs.filter(keep).drop_last() =~= front.filter(keep));
        } else {
            assert(fs.filter(keep) =~= front.filter(keep));
            match spec_merge::<M>(v, front, depth) {
                Some(u) => {
                    M::lemma_unknown_field(u, last, depth);
                },
                None => {},
            }
        }
    }
}

/// Decoding bytes that hold fields of undeclared tags among the fields of
/// a message gives what the declared fields alone decode to: the others do
/// not make decoding fail and do not change its result.
pub proof fn lemma_decode_ignores_unknown<M: Message>(b: Seq<u8>, fs: Seq<WireField>)
    requires
        spec_read_fields(b, RECURSION_LIMIT as nat) == Some(fs),
    ensures
        spec_decode::<M>(b) == spec_merge::<M>(
            M::spec_blank(),
            spec_known_fields::<M>(fs),
            RECURSION_LIMIT as nat,
        ),
        fields_ok(spec_known_fields::<M>(fs)) ==> spec_decode::<M>(b) == spec_decode::<M>(
            fields_bytes(spec_known_fields::<M>(fs)),
        ),
{
    let keep = |f: WireField| M::spec_known(f.tag);
    let kept = fs.filter(keep);
    if fields_ok(kept) {
        lemma_fields_round_trip(kept, RECURSION_LIMIT as nat);
    }
    lemma_unknown_fields_ignored::<M>(M::spec_blank(), fs, RECURSION_LIMIT as nat);
}

/// No bytes decode to the blank value.
pub proof fn lemma_decode_empty<M: Layout>()
    ensures
        spec_decode::<M>(Seq::empty()) == Some(M::spec_blank()),
{
}

} // verus!
