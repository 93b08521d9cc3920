//! The requests that change what the module stores, and their replies.

use vstd::prelude::*;
use vstd::utf8::encode_utf8;
use crate::message::{
    Layout, Message, lemma_merge_concat, lemma_merge_short, lemma_round_trip, spec_decode,
    spec_encode, spec_merge,
};
use crate::scalar::{
    bytes_field, bytes_in, int32_field, int32_in, lemma_int32_bits_round_trip,
    lemma_text_round_trip, push_bytes, push_int32, push_text, spec_bytes_in, spec_int32_in,
    spec_text_in, text_field, text_in,
};
use crate::wasm_type::WasmType;
use crate::wire::{fields_view, Field, WireField};

verus! {

/// What a request to store an artifact holds, as mathematical values.
pub ghost struct StoreView {
    pub sender: Seq<char>,
    pub wasm: Seq<u8>,
    pub wasm_type: i32,
}

/// Asks to store a data-request artifact.
#[derive(Clone, Debug, PartialEq, Eq)]
pub struct MsgStoreDataRequestWasm {
    /// Who asks.
    pub sender: String,
    /// The bytes of the module.
    pub wasm: Vec<u8>,
    /// The number of its role: see [`WasmType`].
    pub wasm_type: i32,
}

impl View for MsgStoreDataRequestWasm {
    type V = StoreView;

    open spec fn view(&self) -> StoreView {
        StoreView {
            sender: self.sender@,
            wasm: self.wasm@,
            wasm_type: self.wasm_type,
        }
    }
}

impl Layout for MsgStoreDataRequestWasm {
    open spec fn spec_blank() -> StoreView {
        StoreView {
            sender: Seq::empty(),
            wasm: Seq::empty(),
            wasm_type: 0,
        }
    }

    open spec fn spec_fields(v: StoreView) -> Seq<WireField> {
        text_field(1, v.sender) + bytes_field(2, v.wasm) + int32_field(3, v.wasm_type)
    }

    open spec fn spec_merge_field(v: StoreView, f: WireField, depth: nat) -> Option<StoreView> {
        if f.tag == 1 {
            match spec_text_in(f) {
                Some(x) => Some(StoreView { sender: x, ..v }),
                None => None,
            }
        } else if f.tag == 2 {
            match spec_bytes_in(f) {
                Some(x) => Some(StoreView { wasm: x, ..v }),
                None => None,
            }
        } else if f.tag == 3 {
            match spec_int32_in(f) {
                Some(x) => Some(StoreView { wasm_type: x, ..v }),
                None => None,
            }
        } else if depth == 0 {
            None
        } else {
            Some(v)
        }
    }

    open spec fn spec_height() -> nat {
        0
    }

    open spec fn spec_known(tag: u32) -> bool {
        tag == 1 || tag == 2 || tag == 3
    }

    open spec fn spec_fits(v: StoreView) -> bool {
        &&& encode_utf8(v.sender).len() <= u64::MAX
        &&& v.wasm.len() <= u64::MAX
    }
}

impl Message for MsgStoreDataRequestWasm {
    fn blank() -> (r: Self) {
        MsgStoreDataRequestWasm {
            sender: String::new(),
            wasm: Vec::new(),
            wasm_type: 0,
        }
    }

    fn fields(&self) -> (r: Vec<Field>) {
        let mut out: Vec<Field> = Vec::new();
        assert(fields_view(out@) =~= Seq::<WireField>::empty());
        push_text(&mut out, 1, self.sender.as_str());
        push_bytes(&mut out, 2, self.wasm.as_slice());
        push_int32(&mut out, 3, self.wasm_type);
        assert(fields_view(out@) =~= Self::spec_fields(self@));
        out
    }

    fn merge_field(self, f: &Field, depth: usize) -> (r: Option<Self>) {
        let MsgStoreDataRequestWasm { sender, wasm, wasm_type } = self;
        if f.tag == 1 {
            match text_in(f) {
                Some(x) => Some(MsgStoreDataRequestWasm { sender: x, wasm, wasm_type }),
                None => None,
            }
        } else if f.tag == 2 {
            match bytes_in(f) {
                Some(x) => Some(MsgStoreDataRequestWasm { sender, wasm: x, wasm_type }),
                None => None,
            }
        } else if f.tag == 3 {
            match int32_in(f) {
                Some(x) => Some(MsgStoreDataRequestWasm { sender, wasm, wasm_type: x }),
                None => None,
            }
        } else if depth == 0 {
            None
        } else {
            Some(MsgStoreDataRequestWasm { sender, wasm, wasm_type })
        }
    }

    proof fn lemma_own_fields(v: StoreView, depth: nat) {
        let b = Self::spec_blank();
        let s0 = text_field(1, v.sender);
        let v0 = StoreView { sender: v.sender, wasm: Seq::empty(), wasm_type: 0 };
        lemma_text_round_trip(v.sender);
        lemma_merge_short::<MsgStoreDataRequestWasm>(b, s0, depth);
        assert(spec_merge::<MsgStoreDataRequestWasm>(b, s0, depth) == Some(v0));
        let s1 = bytes_field(2, v.wasm);
        let v1 = StoreView { sender: v.sender, wasm: v.wasm, wasm_type: 0 };
        assert(v.wasm.len() == 0 ==> v.wasm =~= Seq::<u8>::empty());
        lemma_merge_short::<MsgStoreDataRequestWasm>(v0, s1, depth);
        assert(spec_merge::<MsgStoreDataRequestWasm>(v0, s1, depth) == Some(v1));
        lemma_merge_concat::<MsgStoreDataRequestWasm>(b, s0, s1, depth);
        let s2 = int32_field(3, v.wasm_type);
        let v2 = StoreView { sender: v.sender, wasm: v.wasm, wasm_type: v.wasm_type };
        lemma_int32_bits_round_trip(v.wasm_type);
        lemma_merge_short::<MsgStoreDataRequestWasm>(v1, s2, depth);
        assert(spec_merge::<MsgStoreDataRequestWasm>(v1, s2, depth) == Some(v2));
        lemma_merge_concat::<MsgStoreDataRequestWasm>(b, s0 + s1, s2, depth);
        assert(v2 == v);
    }

    proof fn lemma_unknown_field(v: StoreView, f: WireField, depth: nat) {
    }
}

impl Default for MsgStoreDataRequestWasm {
    fn default() -> (r: Self)
        ensures
            r@ == Self::spec_blank(),
    {
        Self::blank()
    }
}

/// Decoding what a value of this type encodes to gives the value back.
pub proof fn lemma_msg_store_data_request_wasm_round_trip(v: StoreView)
    requires
        MsgStoreDataRequestWasm::spec_fits(v),
    ensures
        spec_decode::<MsgStoreDataRequestWasm>(
            spec_encode::<MsgStoreDataRequestWasm>(v),
        ) == Some(v),
{
    lemma_round_trip::<MsgStoreDataRequestWasm>(v);
}

impl MsgStoreDataRequestWasm {
    /// The role that `wasm_type` stands for, and `Unspecified` where it stands
    /// for none.
    pub fn wasm_type(&self) -> (r: WasmType)
        ensures
            r == match WasmType::spec_from_i32(self.wasm_type) {
                Some(t) => t,
                None => WasmType::Unspecified,
            },
    {
        match WasmType::from_i32(self.wasm_type) {
            Some(t) => t,
            None => WasmType::Unspecified,
        }
    }

    /// Sets `wasm_type` to the number of the given role.
    pub fn set_wasm_type(&mut self, value: WasmType)
        ensures
            final(self).wasm_type == value.spec_number(),
            final(self).sender == old(self).sender,
            final(self).wasm == old(self).wasm,
    {
        self.wasm_type = value.number();
    }
}

/// What a reply with one identifier holds, as mathematical values.
pub ghost struct StoredView {
    pub hash: Seq<char>,
}

/// The identifier under which a data-request artifact was stored.
#[derive(Clone, Debug, PartialEq, Eq)]
pub struct MsgStoreDataRequestWasmResponse {
    /// The identifier, as text.
    pub hash: String,
}

impl View for MsgStoreDataRequestWasmResponse {
    type V = StoredView;

    open spec fn view(&self) -> StoredView {
        StoredView {
            hash: self.hash@,
        }
    }
}

impl Layout for MsgStoreDataRequestWasmResponse {
    open spec fn spec_blank() -> StoredView {
        StoredView {
            hash: Seq::empty(),
        }
    }

    open spec fn spec_fields(v: StoredView) -> Seq<WireField> {
        text_field(1, v.hash)
    }

    open spec fn spec_merge_field(v: StoredView, f: WireField, depth: nat) -> Option<StoredView> {
        if f.tag == 1 {
            match spec_text_in(f) {
                Some(x) => Some(StoredView { hash: x, ..v }),
                None => None,
            }
        } else if depth == 0 {
            None
        } else {
            Some(v)
        }
    }

    open spec fn spec_height() -> nat {
        0
    }

    open spec fn spec_known(tag: u32) -> bool {
        tag == 1
    }

    open spec fn spec_fits(v: StoredView) -> bool {
        &&& encode_utf8(v.hash).len() <= u64::MAX
    }
}

impl Message for MsgStoreDataRequestWasmResponse {
    fn blank() -> (r: Self) {
        MsgStoreDataRequestWasmResponse {
            hash: String::new(),
        }
    }

    fn fields(&self) -> (r: Vec<Field>) {
        let mut out: Vec<Field> = Vec::new();
        assert(fields_view(out@) =~= Seq::<WireField>::empty());
        push_text(&mut out, 1, self.hash.as_str());
        assert(fields_view(out@) =~= Self::spec_fields(self@));
        out
    }

    fn merge_field(self, f: &Field, depth: usize) -> (r: Option<Self>) {
        let MsgStoreDataRequestWasmResponse { hash } = self;
        if f.tag == 1 {
            match text_in(f) {
                Some(x) => Some(MsgStoreDataRequestWasmResponse { hash: x }),
                None => None,
            }
        } else if depth == 0 {
            None
        } else {
            Some(MsgStoreDataRequestWasmResponse { hash })
        }
    }

    proof fn lemma_own_fields(v: StoredView, depth: nat) {
        let b = Self::spec_blank();
        let s0 = text_field(1, v.hash);
        let v0 = StoredView { hash: v.hash };
        lemma_text_round_trip(v.hash);
        lemma_merge_short::<MsgStoreDataRequestWasmResponse>(b, s0, depth);
        assert(spec_merge::<MsgStoreDataRequestWasmResponse>(b, s0, depth) == Some(v0));
        assert(v0 == v);
    }

    proof fn lemma_unknown_field(v: StoredView, f: WireField, depth: nat) {
    }
}

impl Default for MsgStoreDataRequestWasmResponse {
    fn default() -> (r: Self)
        ensures
            r@ == Self::spec_blank(),
    {
        Self::blank()
    }
}

/// Decoding what a value of this type encodes to gives the value back.
pub proof fn lemma_msg_store_data_request_wasm_response_round_trip(v: StoredView)
    requires
        MsgStoreDataRequestWasmResponse::spec_fits(v),
    ensures
        spec_decode::<MsgStoreDataRequestWasmResponse>(
            spec_encode::<MsgStoreDataRequestWasmResponse>(v),
        ) == Some(v),
{
    lemma_round_trip::<MsgStoreDataRequestWasmResponse>(v);
}

/// Asks to store an overlay artifact.
#[derive(Clone, Debug, PartialEq, Eq)]
pub struct MsgStoreOverlayWasm {
    /// Who asks.
    pub sender: String,
    /// The bytes of the module.
    pub wasm: Vec<u8>,
    /// The number of its role: see [`WasmType`].
    pub wasm_type: i32,
}

impl View for MsgStoreOverlayWasm {
    type V = StoreView;

    open spec fn view(&self) -> StoreView {
        StoreView {
            sender: self.sender@,
            wasm: self.wasm@,
            wasm_type: self.wasm_type,
        }
    }
}

impl Layout for MsgStoreOverlayWasm {
    open spec fn spec_blank() -> StoreView {
        StoreView {
            sender: Seq::empty(),
            wasm: Seq::empty(),
            wasm_type: 0,
        }
    }

    open spec fn spec_fields(v: StoreView) -> Seq<WireField> {
        text_field(1, v.sender) + bytes_field(2, v.wasm) + int32_field(3, v.wasm_type)
    }

    open spec fn spec_merge_field(v: StoreView, f: WireField, depth: nat) -> Option<StoreView> {
        if f.tag == 1 {
            match spec_text_in(f) {
                Some(x) => Some(StoreView { sender: x, ..v }),
                None => None,
            }
        } else if f.tag == 2 {
            match spec_bytes_in(f) {
                Some(x) => Some(StoreView { wasm: x, ..v }),
                None => None,
            }
        } else if f.tag == 3 {
            match spec_int32_in(f) {
                Some(x) => Some(StoreView { wasm_type: x, ..v }),
                None => None,
            }
        } else if depth == 0 {
            None
        } else {
            Some(v)
        }
    }

    open spec fn spec_height() -> nat {
        0
    }

    open spec fn spec_known(tag: u32) -> bool {
        tag == 1 || tag == 2 || tag == 3
    }

    open spec fn spec_fits(v: StoreView) -> bool {
        &&& encode_utf8(v.sender).len() <= u64::MAX
        &&& v.wasm.len() <= u64::MAX
    }
}

impl Message for MsgStoreOverlayWasm {
    fn blank() -> (r: Self) {
        MsgStoreOverlayWasm {
            sender: String::new(),
            wasm: Vec::new(),
            wasm_type: 0,
        }
    }

    fn fields(&self) -> (r: Vec<Field>) {
        let mut out: Vec<Field> = Vec::new();
        assert(fields_view(out@) =~= Seq::<WireField>::empty());
        push_text(&mut out, 1, self.sender.as_str());
        push_bytes(&mut out, 2, self.wasm.as_slice());
        push_int32(&mut out, 3, self.wasm_type);
        assert(fields_view(out@) =~= Self::spec_fields(self@));
        out
    }

    fn merge_field(self, f: &Field, depth: usize) -> (r: Option<Self>) {
        let MsgStoreOverlayWasm { sender, wasm, wasm_type } = self;
        if f.tag == 1 {
            match text_in(f) {
                Some(x) => Some(MsgStoreOverlayWasm { sender: x, wasm, wasm_type }),
                None => None,
            }
        } else if f.tag == 2 {
            match bytes_in(f) {
                Some(x) => Some(MsgStoreOverlayWasm { sender, wasm: x, wasm_type }),
                None => None,
            }
        } else if f.tag == 3 {
            match int32_in(f) {
                Some(x) => Some(MsgStoreOverlayWasm { sender, wasm, wasm_type: x }),
                None => None,
            }
        } else if depth == 0 {
            None
        } else {
            Some(MsgStoreOverlayWasm { sender, wasm, wasm_type })
        }
    }

    proof fn lemma_own_fields(v: StoreView, depth: nat) {
        let b = Self::spec_blank();
        let s0 = text_field(1, v.sender);
        let v0 = StoreView { sender: v.sender, wasm: Seq::empty(), wasm_type: 0 };
        lemma_text_round_trip(v.sender);
        lemma_merge_short::<MsgStoreOverlayWasm>(b, s0, depth);
        assert(spec_merge::<MsgStoreOverlayWasm>(b, s0, depth) == Some(v0));
        let s1 = bytes_field(2, v.wasm);
        let v1 = StoreView { sender: v.sender, wasm: v.wasm, wasm_type: 0 };
        assert(v.wasm.len() == 0 ==> v.wasm =~= Seq::<u8>::empty());
        lemma_merge_short::<MsgStoreOverlayWasm>(v0, s1, depth);
        assert(spec_merge::<MsgStoreOverlayWasm>(v0, s1, depth) == Some(v1));
        lemma_merge_concat::<MsgStoreOverlayWasm>(b, s0, s1, depth);
        let s2 = int32_field(3, v.wasm_type);
        let v2 = StoreView { sender: v.sender, wasm: v.wasm, wasm_type: v.wasm_type };
        lemma_int32_bits_round_trip(v.wasm_type);
        lemma_merge_short::<MsgStoreOverlayWasm>(v1, s2, depth);
        assert(spec_merge::<MsgStoreOverlayWasm>(v1, s2, depth) == Some(v2));
        lemma_merge_concat::<MsgStoreOverlayWasm>(b, s0 + s1, s2, depth);
        assert(v2 == v);
    }

    proof fn lemma_unknown_field(v: StoreView, f: WireField, depth: nat) {
    }
}

impl Default for MsgStoreOverlayWasm {
    fn default() -> (r: Self)
        ensures
            r@ == Self::spec_blank(),
    {
        Self::blank()
    }
}

/// Decoding what a value of this type encodes to gives the value back.
pub proof fn lemma_msg_store_overlay_wasm_round_trip(v: StoreView)
    requires
        MsgStoreOverlayWasm::spec_fits(v),
    ensures
        spec_decode::<MsgStoreOverlayWasm>(spec_encode::<MsgStoreOverlayWasm>(v)) == Some(v),
{
    lemma_round_trip::<MsgStoreOverlayWasm>(v);
}

impl MsgStoreOverlayWasm {
    /// The role that `wasm_type` stands for, and `Unspecified` where it stands
    /// for none.
    pub fn wasm_type(&self) -> (r: WasmType)
        ensures
            r == match WasmType::spec_from_i32(self.wasm_type) {
                Some(t) => t,
                None => WasmType::Unspecified,
            },
    {
        match WasmType::from_i32(self.wasm_type) {
            Some(t) => t,
            None => WasmType::Unspecified,
        }
    }

    /// Sets `wasm_type` to the number of the given role.
    pub fn set_wasm_type(&mut self, value: WasmType)
        ensures
            final(self).wasm_type == value.spec_number(),
            final(self).sender == old(self).sender,
            final(self).wasm == old(self).wasm,
    {
        self.wasm_type = value.number();
    }
}

/// The identifier under which an overlay artifact was stored.
#[derive(Clone, Debug, PartialEq, Eq)]
pub struct MsgStoreOverlayWasmResponse {
    /// The identifier, as text.
    pub hash: String,
}

impl View for MsgStoreOverlayWasmResponse {
    type V = StoredView;

    open spec fn view(&self) -> StoredView {
        StoredView {
            hash: self.hash@,
        }
    }
}

impl Layout for MsgStoreOverlayWasmResponse {
    open spec fn spec_blank() -> StoredView {
        StoredView {
            hash: Seq::empty(),
        }
    }

    open spec fn spec_fields(v: StoredView) -> Seq<WireField> {
        text_field(1, v.hash)
    }

    open spec fn spec_merge_field(v: StoredView, f: WireField, depth: nat) -> Option<StoredView> {
        if f.tag == 1 {
            match spec_text_in(f) {
                Some(x) => Some(StoredView { hash: x, ..v }),
                None => None,
            }
        } else if depth == 0 {
            None
        } else {
            Some(v)
        }
    }

    open spec fn spec_height() -> nat {
        0
    }

    open spec fn spec_known(tag: u32) -> bool {
        tag == 1
    }

    open spec fn spec_fits(v: StoredView) -> bool {
        &&& encode_utf8(v.hash).len() <= u64::MAX
    }
}

impl Message for MsgStoreOverlayWasmResponse {
    fn blank() -> (r: Self) {
        MsgStoreOverlayWasmResponse {
            hash: String::new(),
        }
    }

    fn fields(&self) -> (r: Vec<Field>) {
        let mut out: Vec<Field> = Vec::new();
        assert(fields_view(out@) =~= Seq::<WireField>::empty());
        push_text(&mut out, 1, self.hash.as_str());
        assert(fields_view(out@) =~= Self::spec_fields(self@));
        out
    }

    fn merge_field(self, f: &Field, depth: usize) -> (r: Option<Self>) {
        let MsgStoreOverlayWasmResponse { hash } = self;
        if f.tag == 1 {
            match text_in(f) {
                Some(x) => Some(MsgStoreOverlayWasmResponse { hash: x }),
                None => None,
            }
        } else if depth == 0 {
            None
        } else {
            Some(MsgStoreOverlayWasmResponse { hash })
        }
    }

    proof fn lemma_own_fields(v: StoredView, depth: nat) {
        let b = Self::spec_blank();
        let s0 = text_field(1, v.hash);
        let v0 = StoredView { hash: v.hash };
        lemma_text_round_trip(v.hash);
        lemma_merge_short::<MsgStoreOverlayWasmResponse>(b, s0, depth);
        assert(spec_merge::<MsgStoreOverlayWasmResponse>(b, s0, depth) == Some(v0));
        assert(v0 == v);
    }

    proof fn lemma_unknown_field(v: StoredView, f: WireField, depth: nat) {
    }
}

impl Default for MsgStoreOverlayWasmResponse {
    fn default() -> (r: Self)
        ensures
            r@ == Self::spec_blank(),
    {
        Self::blank()
    }
}

/// Decoding what a value of this type encodes to gives the value back.
pub proof fn lemma_msg_store_overlay_wasm_response_round_trip(v: StoredView)
    requires
        MsgStoreOverlayWasmResponse::spec_fits(v),
    ensures
        spec_decode::<MsgStoreOverlayWasmResponse>(
            spec_encode::<MsgStoreOverlayWasmResponse>(v),
        ) == Some(v),
{
    lemma_round_trip::<MsgStoreOverlayWasmResponse>(v);
}

} // verus!
