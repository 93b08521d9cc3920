//! Stored artifacts and the settings of the module.

use vstd::prelude::*;
use crate::message::{
    Layout, Message, lemma_merge_concat, lemma_merge_short, lemma_round_trip, spec_decode,
    spec_encode, spec_fits_inside, spec_merge,
};
use crate::scalar::{
    bytes_field, bytes_in, int32_field, int32_in, lemma_int32_bits_round_trip,
    lemma_message_field_round_trip, message_in, optional_field, push_bytes, push_int32,
    push_message, push_uint64, spec_bytes_in, spec_int32_in, spec_message_in, spec_uint64_in,
    uint64_field, uint64_in, view_of,
};
use crate::timestamp::Timestamp;
use crate::wasm_type::WasmType;
use crate::wire::{fields_view, Field, WireField};

verus! {

/// What a stored artifact holds, as mathematical values.
pub ghost struct WasmView {
    pub hash: Seq<u8>,
    pub bytecode: Seq<u8>,
    pub wasm_type: i32,
    pub added_at: Option<Timestamp>,
}

/// A stored WebAssembly artifact.
#[derive(Clone, Debug, PartialEq, Eq)]
pub struct Wasm {
    /// The identifier of the artifact.
    pub hash: Vec<u8>,
    /// The bytes of the module.
    pub bytecode: Vec<u8>,
    /// The number of its role: see [`WasmType`].
    pub wasm_type: i32,
    /// When it was stored, if that is known.
    pub added_at: Option<Timestamp>,
}

impl View for Wasm {
    type V = WasmView;

    open spec fn view(&self) -> WasmView {
        WasmView {
            hash: self.hash@,
            bytecode: self.bytecode@,
            wasm_type: self.wasm_type,
            added_at: view_of(self.added_at),
        }
    }
}

impl Layout for Wasm {
    open spec fn spec_blank() -> WasmView {
        WasmView {
            hash: Seq::empty(),
            bytecode: Seq::empty(),
            wasm_type: 0,
            added_at: None,
        }
    }

    open spec fn spec_fields(v: WasmView) -> Seq<WireField> {
        bytes_field(1, v.hash)
            + bytes_field(2, v.bytecode)
            + int32_field(3, v.wasm_type)
            + optional_field::<Timestamp>(4, v.added_at)
    }

    open spec fn spec_merge_field(v: WasmView, f: WireField, depth: nat) -> Option<WasmView> {
        if f.tag == 1 {
            match spec_bytes_in(f) {
                Some(x) => Some(WasmView { hash: x, ..v }),
                None => None,
            }
        } else if f.tag == 2 {
            match spec_bytes_in(f) {
                Some(x) => Some(WasmView { bytecode: x, ..v }),
                None => None,
            }
        } else if f.tag == 3 {
            match spec_int32_in(f) {
                Some(x) => Some(WasmView { wasm_type: x, ..v }),
                None => None,
            }
        } else if f.tag == 4 {
            match spec_message_in::<Timestamp>(v.added_at, f, depth) {
                Some(x) => Some(WasmView { added_at: Some(x), ..v }),
                None => None,
            }
        } else if depth == 0 {
            None
        } else {
            Some(v)
        }
    }

    open spec fn spec_height() -> nat {
        1
    }

    open spec fn spec_known(tag: u32) -> bool {
        tag == 1 || tag == 2 || tag == 3 || tag == 4
    }

    open spec fn spec_fits(v: WasmView) -> bool {
        &&& v.hash.len() <= u64::MAX
        &&& v.bytecode.len() <= u64::MAX
        &&& match v.added_at {
            Some(m) => spec_fits_inside::<Timestamp>(m),
            None => true,
        }
    }
}

impl Message for Wasm {
    fn blank() -> (r: Self) {
        Wasm {
            hash: Vec::new(),
            bytecode: Vec::new(),
            wasm_type: 0,
            added_at: None,
        }
    }

    fn fields(&self) -> (r: Vec<Field>) {
        let mut out: Vec<Field> = Vec::new();
        assert(fields_view(out@) =~= Seq::<WireField>::empty());
        push_bytes(&mut out, 1, self.hash.as_slice());
        push_bytes(&mut out, 2, self.bytecode.as_slice());
        push_int32(&mut out, 3, self.wasm_type);
        let ghost before = fields_view(out@);
        match &self.added_at {
            Some(m) => {
                push_message(&mut out, 4, m);
            },
            None => {},
        }
        assert(fields_view(out@) =~= before + optional_field::<Timestamp>(4, self@.added_at));
        assert(fields_view(out@) =~= Self::spec_fields(self@));
        out
    }

    fn merge_field(self, f: &Field, depth: usize) -> (r: Option<Self>) {
        let Wasm { hash, bytecode, wasm_type, added_at } = self;
        if f.tag == 1 {
            match bytes_in(f) {
                Some(x) => Some(Wasm { hash: x, bytecode, wasm_type, added_at }),
                None => None,
            }
        } else if f.tag == 2 {
            match bytes_in(f) {
                Some(x) => Some(Wasm { hash, bytecode: x, wasm_type, added_at }),
                None => None,
            }
        } else if f.tag == 3 {
            match int32_in(f) {
                Some(x) => Some(Wasm { hash, bytecode, wasm_type: x, added_at }),
                None => None,
            }
        } else if f.tag == 4 {
            match message_in::<Timestamp>(added_at, f, depth) {
                Some(x) => Some(Wasm { hash, bytecode, wasm_type, added_at: Some(x) }),
                None => None,
            }
        } else if depth == 0 {
            None
        } else {
            Some(Wasm { hash, bytecode, wasm_type, added_at })
        }
    }

    proof fn lemma_own_fields(v: WasmView, depth: nat) {
        let b = Self::spec_blank();
        let s0 = bytes_field(1, v.hash);
        let v0 = WasmView { hash: v.hash, bytecode: Seq::empty(), wasm_type: 0, added_at: None };
        assert(v.hash.len() == 0 ==> v.hash =~= Seq::<u8>::empty());
        lemma_merge_short::<Wasm>(b, s0, depth);
        assert(spec_merge::<Wasm>(b, s0, depth) == Some(v0));
        let s1 = bytes_field(2, v.bytecode);
        let v1 = WasmView { hash: v.hash, bytecode: v.bytecode, wasm_type: 0, added_at: None };
        assert(v.bytecode.len() == 0 ==> v.bytecode =~= Seq::<u8>::empty());
        lemma_merge_short::<Wasm>(v0, s1, depth);
        assert(spec_merge::<Wasm>(v0, s1, depth) == Some(v1));
        lemma_merge_concat::<Wasm>(b, s0, s1, depth);
        let s2 = int32_field(3, v.wasm_type);
        let v2 = WasmView {
            hash: v.hash,
            bytecode: v.bytecode,
            wasm_type: v.wasm_type,
            added_at: None,
        };
        lemma_int32_bits_round_trip(v.wasm_type);
        lemma_merge_short::<Wasm>(v1, s2, depth);
        assert(spec_merge::<Wasm>(v1, s2, depth) == Some(v2));
        lemma_merge_concat::<Wasm>(b, s0 + s1, s2, depth);
        let s3 = optional_field::<Timestamp>(4, v.added_at);
        let v3 = WasmView {
            hash: v.hash,
            bytecode: v.bytecode,
            wasm_type: v.wasm_type,
            added_at: v.added_at,
        };
        lemma_merge_short::<Wasm>(v2, s3, depth);
        match v.added_at {
            Some(m) => {
                lemma_message_field_round_trip::<Timestamp>(4, m, depth);
            },
            None => {},
        }
        assert(spec_merge::<Wasm>(v2, s3, depth) == Some(v3));
        lemma_merge_concat::<Wasm>(b, s0 + s1 + s2, s3, depth);
        assert(v3 == v);
    }

    proof fn lemma_unknown_field(v: WasmView, f: WireField, depth: nat) {
    }
}

impl Default for Wasm {
    fn default() -> (r: Self)
        ensures
            r@ == Self::spec_blank(),
    {
        Self::blank()
    }
}

/// Decoding what a value of this type encodes to gives the value back.
pub proof fn lemma_wasm_round_trip(v: WasmView)
    requires
        Wasm::spec_fits(v),
    ensures
        spec_decode::<Wasm>(spec_encode::<Wasm>(v)) == Some(v),
{
    lemma_round_trip::<Wasm>(v);
}

impl Wasm {
    /// The role that `wasm_type` stands for, and `Unspecified` where it stands
    /// for none.
    pub fn wasm_type(&self) -> (r: WasmType)
        ensures
            r == match WasmType::spec_from_i32(self.wasm_type) {
                Some(t) => t,
                None => WasmType::Unspecified,
            },
    {
        match WasmType::from_i32(self.wasm_type) {
            Some(t) => t,
            None => WasmType::Unspecified,
        }
    }

    /// Sets `wasm_type` to the number of the given role.
    pub fn set_wasm_type(&mut self, value: WasmType)
        ensures
            final(self).wasm_type == value.spec_number(),
            final(self).hash == old(self).hash,
            final(self).bytecode == old(self).bytecode,
            final(self).added_at == old(self).added_at,
    {
        self.wasm_type = value.number();
    }
}

/// The settings of the module. It is its own view.
#[derive(Clone, Copy, Debug, PartialEq, Eq)]
pub struct Params {
    /// The largest bytecode that is accepted, in bytes.
    pub max_wasm_size: u64,
}

impl View for Params {
    type V = Params;

    open spec fn view(&self) -> Params {
        *self
    }
}

impl Layout for Params {
    open spec fn spec_blank() -> Params {
        Params {
            max_wasm_size: 0,
        }
    }

    open spec fn spec_fields(v: Params) -> Seq<WireField> {
        uint64_field(1, v.max_wasm_size)
    }

    open spec fn spec_merge_field(v: Params, f: WireField, depth: nat) -> Option<Params> {
        if f.tag == 1 {
            match spec_uint64_in(f) {
                Some(x) => Some(Params { max_wasm_size: x, ..v }),
                None => None,
            }
        } else if depth == 0 {
            None
        } else {
            Some(v)
        }
    }

    open spec fn spec_height() -> nat {
        0
    }

    open spec fn spec_known(tag: u32) -> bool {
        tag == 1
    }

    open spec fn spec_fits(v: Params) -> bool {
        true
    }
}

impl Message for Params {
    fn blank() -> (r: Self) {
        Params {
            max_wasm_size: 0,
        }
    }

    fn fields(&self) -> (r: Vec<Field>) {
        let mut out: Vec<Field> = Vec::new();
        assert(fields_view(out@) =~= Seq::<WireField>::empty());
        push_uint64(&mut out, 1, self.max_wasm_size);
        assert(fields_view(out@) =~= Self::spec_fields(self@));
        out
    }

    fn merge_field(self, f: &Field, depth: usize) -> (r: Option<Self>) {
        let Params { max_wasm_size } = self;
        if f.tag == 1 {
            match uint64_in(f) {
                Some(x) => Some(Params { max_wasm_size: x }),
                None => None,
            }
        } else if depth == 0 {
            None
        } else {
            Some(Params { max_wasm_size })
        }
    }

    proof fn lemma_own_fields(v: Params, depth: nat) {
        let b = Self::spec_blank();
        let s0 = uint64_field(1, v.max_wasm_size);
        let v0 = Params { max_wasm_size: v.max_wasm_size };
        lemma_merge_short::<Params>(b, s0, depth);
        assert(spec_merge::<Params>(b, s0, depth) == Some(v0));
        assert(v0 == v);
    }

    proof fn lemma_unknown_field(v: Params, f: WireField, depth: nat) {
    }
}

impl Default for Params {
    fn default() -> (r: Self)
        ensures
            r@ == Self::spec_blank(),
    {
        Self::blank()
    }
}

/// Decoding what a value of this type encodes to gives the value back.
pub proof fn lemma_params_round_trip(v: Params)
    requires
        Params::spec_fits(v),
    ensures
        spec_decode::<Params>(spec_encode::<Params>(v)) == Some(v),
{
    lemma_round_trip::<Params>(v);
}

} // verus!
