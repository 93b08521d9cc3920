//! The state that the module starts from.

use vstd::prelude::*;
use crate::message::{
    Layout, Message, lemma_merge_concat, lemma_merge_short, lemma_round_trip, spec_decode,
    spec_encode, spec_fits_inside, spec_merge,
};
use crate::scalar::{
    lemma_message_field_round_trip, message_in, optional_field, push_message, push_messages,
    repeated_fields, spec_message_in, view_of, views_of,
};
use crate::wasm::{Params, Wasm, WasmView};
use crate::wire::{fields_view, Field, WireField};

verus! {

/// What the starting state holds, as mathematical values.
pub ghost struct GenesisStateView {
    pub params: Option<Params>,
    pub wasms: Seq<WasmView>,
}

/// The state that the module starts from.
#[derive(Clone, Debug, PartialEq, Eq)]
pub struct GenesisState {
    /// The settings, if any are given.
    pub params: Option<Params>,
    /// The stored artifacts, in order.
    pub wasms: Vec<Wasm>,
}

impl View for GenesisState {
    type V = GenesisStateView;

    open spec fn view(&self) -> GenesisStateView {
        GenesisStateView {
            params: view_of(self.params),
            wasms: views_of(self.wasms@),
        }
    }
}

impl Layout for GenesisState {
    open spec fn spec_blank() -> GenesisStateView {
        GenesisStateView {
            params: None,
            wasms: Seq::empty(),
        }
    }

    open spec fn spec_fields(v: GenesisStateView) -> Seq<WireField> {
        optional_field::<Params>(1, v.params) + repeated_fields::<Wasm>(2, v.wasms)
    }

    open spec fn spec_merge_field(
        v: GenesisStateView,
        f: WireField,
        depth: nat,
    ) -> Option<GenesisStateView> {
        if f.tag == 1 {
            match spec_message_in::<Params>(v.params, f, depth) {
                Some(x) => Some(GenesisStateView { params: Some(x), ..v }),
                None => None,
            }
        } else if f.tag == 2 {
            match spec_message_in::<Wasm>(None, f, depth) {
                Some(x) => Some(GenesisStateView { wasms: v.wasms.push(x), ..v }),
                None => None,
            }
        } else if depth == 0 {
            None
        } else {
            Some(v)
        }
    }

    open spec fn spec_height() -> nat {
        2
    }

    open spec fn spec_known(tag: u32) -> bool {
        tag == 1 || tag == 2
    }

    open spec fn spec_fits(v: GenesisStateView) -> bool {
        &&& match v.params {
            Some(m) => spec_fits_inside::<Params>(m),
            None => true,
        }
        &&& (forall|i: int|
            0 <= i < v.wasms.len() ==> spec_fits_inside::<Wasm>(#[trigger] v.wasms[i]))
    }
}

/// Merging the fields of a list into a value whose list is empty gives
/// the value with that list.
proof fn lemma_genesis_state_wasms(base: GenesisStateView, items: Seq<WasmView>, depth: nat)
    requires
        base.wasms.len() == 0,
        depth > Wasm::spec_height(),
        forall|i: int|
            0 <= i < items.len() ==> spec_fits_inside::<Wasm>(#[trigger] items[i]),
    ensures
        spec_merge::<GenesisState>(base, repeated_fields::<Wasm>(2, items), depth) == Some(
            GenesisStateView { wasms: items, ..base },
        ),
    decreases items.len(),
{
    let fs = repeated_fields::<Wasm>(2, items);
    if items.len() == 0 {
        assert(items =~= base.wasms);
    } else {
        let front = items.drop_last();
        lemma_genesis_state_wasms(base, front, depth);
        assert(fs.drop_last() =~= repeated_fields::<Wasm>(2, front));
        lemma_message_field_round_trip::<Wasm>(2, items.last(), depth);
        assert(front.push(items.last()) =~= items);
    }
}

impl Message for GenesisState {
    fn blank() -> (r: Self) {
        let r = GenesisState {
            params: None,
            wasms: Vec::new(),
        };
        assert(r@.wasms =~= Seq::empty());
        r
    }

    fn fields(&self) -> (r: Vec<Field>) {
        let mut out: Vec<Field> = Vec::new();
        assert(fields_view(out@) =~= Seq::<WireField>::empty());
        let ghost before = fields_view(out@);
        match &self.params {
            Some(m) => {
                push_message(&mut out, 1, m);
            },
            None => {},
        }
        assert(fields_view(out@) =~= before + optional_field::<Params>(1, self@.params));
        push_messages(&mut out, 2, &self.wasms);
        assert(fields_view(out@) =~= Self::spec_fields(self@));
        out
    }

    fn merge_field(self, f: &Field, depth: usize) -> (r: Option<Self>) {
        let GenesisState { params, wasms } = self;
        if f.tag == 1 {
            match message_in::<Params>(params, f, depth) {
                Some(x) => Some(GenesisState { params: Some(x), wasms }),
                None => None,
            }
        } else if f.tag == 2 {
            match message_in::<Wasm>(None, f, depth) {
                Some(x) => {
                    let ghost before = views_of(wasms@);
                    let ghost item = x@;
                    let mut list = wasms;
                    list.push(x);
                    assert(views_of(list@) =~= before.push(item));
                    Some(GenesisState { params, wasms: list })
                },
                None => None,
            }
        } else if depth == 0 {
            None
        } else {
            Some(GenesisState { params, wasms })
        }
    }

    proof fn lemma_own_fields(v: GenesisStateView, depth: nat) {
        let b = Self::spec_blank();
        let s0 = optional_field::<Params>(1, v.params);
        let v0 = GenesisStateView { params: v.params, wasms: Seq::empty() };
        lemma_merge_short::<GenesisState>(b, s0, depth);
        match v.params {
            Some(m) => {
                lemma_message_field_round_trip::<Params>(1, m, depth);
            },
            None => {},
        }
        assert(spec_merge::<GenesisState>(b, s0, depth) == Some(v0));
        let s1 = repeated_fields::<Wasm>(2, v.wasms);
        let v1 = GenesisStateView { params: v.params, wasms: v.wasms };
        lemma_genesis_state_wasms(v0, v.wasms, depth);
        assert(spec_merge::<GenesisState>(v0, s1, depth) == Some(v1));
        lemma_merge_concat::<GenesisState>(b, s0, s1, depth);
        assert(v1 == v);
    }

    proof fn lemma_unknown_field(v: GenesisStateView, f: WireField, depth: nat) {
    }
}

impl Default for GenesisState {
    fn default() -> (r: Self)
        ensures
            r@ == Self::spec_blank(),
    {
        Self::blank()
    }
}

/// Decoding what a value of this type encodes to gives the value back.
pub proof fn lemma_genesis_state_round_trip(v: GenesisStateView)
    requires
        GenesisState::spec_fits(v),
    ensures
        spec_decode::<GenesisState>(spec_encode::<GenesisState>(v)) == Some(v),
{
    lemma_round_trip::<GenesisState>(v);
}

} // verus!
