//! A point in time, as messages carry it.

use vstd::prelude::*;
use crate::message::{
    Layout, Message, lemma_merge_concat, lemma_merge_short, lemma_round_trip, spec_decode,
    spec_encode, spec_merge,
};
use crate::scalar::{
    int32_field, int32_in, int64_field, int64_in, lemma_int32_bits_round_trip,
    lemma_int64_bits_round_trip, push_int32, push_int64, spec_int32_in, spec_int64_in,
};
use crate::wire::{fields_view, Field, WireField};

verus! {

/// A point in time: seconds since the start of 1970 in UTC, and the
/// nanoseconds within the second. It is its own view.
#[derive(Clone, Copy, Debug, PartialEq, Eq)]
pub struct Timestamp {
    pub seconds: i64,
    pub nanos: i32,
}

impl View for Timestamp {
    type V = Timestamp;

    open spec fn view(&self) -> Timestamp {
        *self
    }
}

impl Layout for Timestamp {
    open spec fn spec_blank() -> Timestamp {
        Timestamp {
            seconds: 0,
            nanos: 0,
        }
    }

    open spec fn spec_fields(v: Timestamp) -> Seq<WireField> {
        int64_field(1, v.seconds) + int32_field(2, v.nanos)
    }

    open spec fn spec_merge_field(v: Timestamp, f: WireField, depth: nat) -> Option<Timestamp> {
        if f.tag == 1 {
            match spec_int64_in(f) {
                Some(x) => Some(Timestamp { seconds: x, ..v }),
                None => None,
            }
        } else if f.tag == 2 {
            match spec_int32_in(f) {
                Some(x) => Some(Timestamp { nanos: x, ..v }),
                None => None,
            }
        } else if depth == 0 {
            None
        } else {
            Some(v)
        }
    }

    open spec fn spec_height() -> nat {
        0
    }

    open spec fn spec_known(tag: u32) -> bool {
        tag == 1 || tag == 2
    }

    open spec fn spec_fits(v: Timestamp) -> bool {
        true
    }
}

impl Message for Timestamp {
    fn blank() -> (r: Self) {
        Timestamp {
            seconds: 0,
            nanos: 0,
        }
    }

    fn fields(&self) -> (r: Vec<Field>) {
        let mut out: Vec<Field> = Vec::new();
        assert(fields_view(out@) =~= Seq::<WireField>::empty());
        push_int64(&mut out, 1, self.seconds);
        push_int32(&mut out, 2, self.nanos);
        assert(fields_view(out@) =~= Self::spec_fields(self@));
        out
    }

    fn merge_field(self, f: &Field, depth: usize) -> (r: Option<Self>) {
        let Timestamp { seconds, nanos } = self;
        if f.tag == 1 {
            match int64_in(f) {
                Some(x) => Some(Timestamp { seconds: x, nanos }),
                None => None,
            }
        } else if f.tag == 2 {
            match int32_in(f) {
                Some(x) => Some(Timestamp { seconds, nanos: x }),
                None => None,
            }
        } else if depth == 0 {
            None
        } else {
            Some(Timestamp { seconds, nanos })
        }
    }

    proof fn lemma_own_fields(v: Timestamp, depth: nat) {
        let b = Self::spec_blank();
        let s0 = int64_field(1, v.seconds);
        let v0 = Timestamp { seconds: v.seconds, nanos: 0 };
        lemma_int64_bits_round_trip(v.seconds);
        lemma_merge_short::<Timestamp>(b, s0, depth);
        assert(spec_merge::<Timestamp>(b, s0, depth) == Some(v0));
        let s1 = int32_field(2, v.nanos);
        let v1 = Timestamp { seconds: v.seconds, nanos: v.nanos };
        lemma_int32_bits_round_trip(v.nanos);
        lemma_merge_short::<Timestamp>(v0, s1, depth);
        assert(spec_merge::<Timestamp>(v0, s1, depth) == Some(v1));
        lemma_merge_concat::<Timestamp>(b, s0, s1, depth);
        assert(v1 == v);
    }

    proof fn lemma_unknown_field(v: Timestamp, f: WireField, depth: nat) {
    }
}

impl Default for Timestamp {
    fn default() -> (r: Self)
        ensures
            r@ == Self::spec_blank(),
    {
        Self::blank()
    }
}

/// Decoding what a value of this type encodes to gives the value back.
pub proof fn lemma_timestamp_round_trip(v: Timestamp)
    requires
        Timestamp::spec_fits(v),
    ensures
        spec_decode::<Timestamp>(spec_encode::<Timestamp>(v)) == Some(v),
{
    lemma_round_trip::<Timestamp>(v);
}

} // verus!
