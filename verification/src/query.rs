//! The questions that the module answers, and its answers.

use vstd::prelude::*;
use vstd::utf8::encode_utf8;
use crate::message::{
    Layout, Message, lemma_merge_concat, lemma_merge_short, lemma_round_trip, spec_decode,
    spec_encode, spec_fits_inside, spec_merge,
};
use crate::scalar::{
    lemma_message_field_round_trip, lemma_text_round_trip, message_in, optional_field,
    push_message, push_text, push_texts, repeated_text_fields, spec_message_in, spec_text_in,
    text_field, text_in, texts_of, view_of,
};
use crate::wasm::{Wasm, WasmView};
use crate::wire::{fields_view, Field, WireField};

verus! {

/// What a message with one identifier holds, as mathematical values.
pub ghost struct HashView {
    pub hash: Seq<char>,
}

/// Asks for the data-request artifact with a given identifier.
#[derive(Clone, Debug, PartialEq, Eq)]
pub struct QueryDataRequestWasmRequest {
    /// The identifier, as text.
    pub hash: String,
}

impl View for QueryDataRequestWasmRequest {
    type V = HashView;

    open spec fn view(&self) -> HashView {
        HashView {
            hash: self.hash@,
        }
    }
}

impl Layout for QueryDataRequestWasmRequest {
    open spec fn spec_blank() -> HashView {
        HashView {
            hash: Seq::empty(),
        }
    }

    open spec fn spec_fields(v: HashView) -> Seq<WireField> {
        text_field(1, v.hash)
    }

    open spec fn spec_merge_field(v: HashView, f: WireField, depth: nat) -> Option<HashView> {
        if f.tag == 1 {
            match spec_text_in(f) {
                Some(x) => Some(HashView { hash: x, ..v }),
                None => None,
            }
        } else if depth == 0 {
            None
        } else {
            Some(v)
        }
    }

    open spec fn spec_height() -> nat {
        0
    }

    open spec fn spec_known(tag: u32) -> bool {
        tag == 1
    }

    open spec fn spec_fits(v: HashView) -> bool {
        &&& encode_utf8(v.hash).len() <= u64::MAX
    }
}

impl Message for QueryDataRequestWasmRequest {
    fn blank() -> (r: Self) {
        QueryDataRequestWasmRequest {
            hash: String::new(),
        }
    }

    fn fields(&self) -> (r: Vec<Field>) {
        let mut out: Vec<Field> = Vec::new();
        assert(fields_view(out@) =~= Seq::<WireField>::empty());
        push_text(&mut out, 1, self.hash.as_str());
        assert(fields_view(out@) =~= Self::spec_fields(self@));
        out
    }

    fn merge_field(self, f: &Field, depth: usize) -> (r: Option<Self>) {
        let QueryDataRequestWasmRequest { hash } = self;
        if f.tag == 1 {
            match text_in(f) {
                Some(x) => Some(QueryDataRequestWasmRequest { hash: x }),
                None => None,
            }
        } else if depth == 0 {
            None
        } else {
            Some(QueryDataRequestWasmRequest { hash })
        }
    }

    proof fn lemma_own_fields(v: HashView, depth: nat) {
        let b = Self::spec_blank();
        let s0 = text_field(1, v.hash);
        let v0 = HashView { hash: v.hash };
        lemma_text_round_trip(v.hash);
        lemma_merge_short::<QueryDataRequestWasmRequest>(b, s0, depth);
        assert(spec_merge::<QueryDataRequestWasmRequest>(b, s0, depth) == Some(v0));
        assert(v0 == v);
    }

    proof fn lemma_unknown_field(v: HashView, f: WireField, depth: nat) {
    }
}

impl Default for QueryDataRequestWasmRequest {
    fn default() -> (r: Self)
        ensures
            r@ == Self::spec_blank(),
    {
        Self::blank()
    }
}

/// Decoding what a value of this type encodes to gives the value back.
pub proof fn lemma_query_data_request_wasm_request_round_trip(v: HashView)
    requires
        QueryDataRequestWasmRequest::spec_fits(v),
    ensures
        spec_decode::<QueryDataRequestWasmRequest>(
            spec_encode::<QueryDataRequestWasmRequest>(v),
        ) == Some(v),
{
    lemma_round_trip::<QueryDataRequestWasmRequest>(v);
}

/// What a reply with at most one artifact holds, as mathematical values.
pub ghost struct WasmReplyView {
    pub wasm: Option<WasmView>,
}

/// The data-request artifact that was asked for, if there is one.
#[derive(Clone, Debug, PartialEq, Eq)]
pub struct QueryDataRequestWasmResponse {
    pub wasm: Option<Wasm>,
}

impl View for QueryDataRequestWasmResponse {
    type V = WasmReplyView;

    open spec fn view(&self) -> WasmReplyView {
        WasmReplyView {
            wasm: view_of(self.wasm),
        }
    }
}

impl Layout for QueryDataRequestWasmResponse {
    open spec fn spec_blank() -> WasmReplyView {
        WasmReplyView {
            wasm: None,
        }
    }

    open spec fn spec_fields(v: WasmReplyView) -> Seq<WireField> {
        optional_field::<Wasm>(1, v.wasm)
    }

    open spec fn spec_merge_field(
        v: WasmReplyView,
        f: WireField,
        depth: nat,
    ) -> Option<WasmReplyView> {
        if f.tag == 1 {
            match spec_message_in::<Wasm>(v.wasm, f, depth) {
                Some(x) => Some(WasmReplyView { wasm: Some(x), ..v }),
                None => None,
            }
        } else if depth == 0 {
            None
        } else {
            Some(v)
        }
    }

    open spec fn spec_height() -> nat {
        2
    }

    open spec fn spec_known(tag: u32) -> bool {
        tag == 1
    }

    open spec fn spec_fits(v: WasmReplyView) -> bool {
        &&& match v.wasm {
            Some(m) => spec_fits_inside::<Wasm>(m),
            None => true,
        }
    }
}

impl Message for QueryDataRequestWasmResponse {
    fn blank() -> (r: Self) {
        QueryDataRequestWasmResponse {
            wasm: None,
        }
    }

    fn fields(&self) -> (r: Vec<Field>) {
        let mut out: Vec<Field> = Vec::new();
        assert(fields_view(out@) =~= Seq::<WireField>::empty());
        let ghost before = fields_view(out@);
        match &self.wasm {
            Some(m) => {
                push_message(&mut out, 1, m);
            },
            None => {},
        }
        assert(fields_view(out@) =~= before + optional_field::<Wasm>(1, self@.wasm));
        assert(fields_view(out@) =~= Self::spec_fields(self@));
        out
    }

    fn merge_field(self, f: &Field, depth: usize) -> (r: Option<Self>) {
        let QueryDataRequestWasmResponse { wasm } = self;
        if f.tag == 1 {
            match message_in::<Wasm>(wasm, f, depth) {
                Some(x) => Some(QueryDataRequestWasmResponse { wasm: Some(x) }),
                None => None,
            }
        } else if depth == 0 {
            None
        } else {
            Some(QueryDataRequestWasmResponse { wasm })
        }
    }

    proof fn lemma_own_fields(v: WasmReplyView, depth: nat) {
        let b = Self::spec_blank();
        let s0 = optional_field::<Wasm>(1, v.wasm);
        let v0 = WasmReplyView { wasm: v.wasm };
        lemma_merge_short::<QueryDataRequestWasmResponse>(b, s0, depth);
        match v.wasm {
            Some(m) => {
                lemma_message_field_round_trip::<Wasm>(1, m, depth);
            },
            None => {},
        }
        assert(spec_merge::<QueryDataRequestWasmResponse>(b, s0, depth) == Some(v0));
        assert(v0 == v);
    }

    proof fn lemma_unknown_field(v: WasmReplyView, f: WireField, depth: nat) {
    }
}

impl Default for QueryDataRequestWasmResponse {
    fn default() -> (r: Self)
        ensures
            r@ == Self::spec_blank(),
    {
        Self::blank()
    }
}

/// Decoding what a value of this type encodes to gives the value back.
pub proof fn lemma_query_data_request_wasm_response_round_trip(v: WasmReplyView)
    requires
        QueryDataRequestWasmResponse::spec_fits(v),
    ensures
        spec_decode::<QueryDataRequestWasmResponse>(
            spec_encode::<QueryDataRequestWasmResponse>(v),
        ) == Some(v),
{
    lemma_round_trip::<QueryDataRequestWasmResponse>(v);
}

/// What a message without fields holds, as mathematical values.
pub ghost struct NoFieldsView {
}

/// Asks for all data-request artifacts. It has no fields.
#[derive(Clone, Debug, PartialEq, Eq)]
pub struct QueryDataRequestWasmsRequest {
}

impl View for QueryDataRequestWasmsRequest {
    type V = NoFieldsView;

    open spec fn view(&self) -> NoFieldsView {
        NoFieldsView {  }
    }
}

impl Layout for QueryDataRequestWasmsRequest {
    open spec fn spec_blank() -> NoFieldsView {
        NoFieldsView {  }
    }

    open spec fn spec_fields(v: NoFieldsView) -> Seq<WireField> {
        Seq::empty()
    }

    open spec fn spec_merge_field(
        v: NoFieldsView,
        f: WireField,
        depth: nat,
    ) -> Option<NoFieldsView> {
        if depth == 0 {
            None
        } else {
            Some(v)
        }
    }

    open spec fn spec_height() -> nat {
        0
    }

    open spec fn spec_known(tag: u32) -> bool {
        false
    }

    open spec fn spec_fits(v: NoFieldsView) -> bool {
        true
    }
}

impl Message for QueryDataRequestWasmsRequest {
    fn blank() -> (r: Self) {
        QueryDataRequestWasmsRequest {  }
    }

    fn fields(&self) -> (r: Vec<Field>) {
        let out: Vec<Field> = Vec::new();
        assert(fields_view(out@) =~= Seq::<WireField>::empty());
        assert(fields_view(out@) =~= Self::spec_fields(self@));
        out
    }

    fn merge_field(self, f: &Field, depth: usize) -> (r: Option<Self>) {
        if depth == 0 {
            None
        } else {
            Some(self)
        }
    }

    proof fn lemma_own_fields(v: NoFieldsView, depth: nat) {
        let b = Self::spec_blank();
    }

    proof fn lemma_unknown_field(v: NoFieldsView, f: WireField, depth: nat) {
    }
}

impl Default for QueryDataRequestWasmsRequest {
    fn default() -> (r: Self)
        ensures
            r@ == Self::spec_blank(),
    {
        Self::blank()
    }
}

/// Decoding what a value of this type encodes to gives the value back.
pub proof fn lemma_query_data_request_wasms_request_round_trip(v: NoFieldsView)
    requires
        QueryDataRequestWasmsRequest::spec_fits(v),
    ensures
        spec_decode::<QueryDataRequestWasmsRequest>(
            spec_encode::<QueryDataRequestWasmsRequest>(v),
        ) == Some(v),
{
    lemma_round_trip::<QueryDataRequestWasmsRequest>(v);
}

/// What a reply with a list of texts holds, as mathematical values.
pub ghost struct PairsView {
    pub hash_type_pairs: Seq<Seq<char>>,
}

/// The data-request artifacts: for each, its identifier and role as one text.
#[derive(Clone, Debug, PartialEq, Eq)]
pub struct QueryDataRequestWasmsResponse {
    pub hash_type_pairs: Vec<String>,
}

impl View for QueryDataRequestWasmsResponse {
    type V = PairsView;

    open spec fn view(&self) -> PairsView {
        PairsView {
            hash_type_pairs: texts_of(self.hash_type_pairs@),
        }
    }
}

impl Layout for QueryDataRequestWasmsResponse {
    open spec fn spec_blank() -> PairsView {
        PairsView {
            hash_type_pairs: Seq::empty(),
        }
    }

    open spec fn spec_fields(v: PairsView) -> Seq<WireField> {
        repeated_text_fields(1, v.hash_type_pairs)
    }

    open spec fn spec_merge_field(v: PairsView, f: WireField, depth: nat) -> Option<PairsView> {
        if f.tag == 1 {
            match spec_text_in(f) {
                Some(x) => Some(PairsView { hash_type_pairs: v.hash_type_pairs.push(x), ..v }),
                None => None,
            }
        } else if depth == 0 {
            None
        } else {
            Some(v)
        }
    }

    open spec fn spec_height() -> nat {
        0
    }

    open spec fn spec_known(tag: u32) -> bool {
        tag == 1
    }

    open spec fn spec_fits(v: PairsView) -> bool {
        &&& (forall|i: int|
            0 <= i < v.hash_type_pairs.len() ==> encode_utf8(#[trigger] v.hash_type_pairs[i]).len() <= u64::MAX)
    }
}

/// Merging the fields of a list into a value whose list is empty gives
/// the value with that list.
proof fn lemma_query_data_request_wasms_response_hash_type_pairs(
    base: PairsView,
    items: Seq<Seq<char>>,
    depth: nat,
)
    requires
        base.hash_type_pairs.len() == 0,
        forall|i: int|
            0 <= i < items.len() ==> encode_utf8(#[trigger] items[i]).len() <= u64::MAX,
    ensures
        spec_merge::<QueryDataRequestWasmsResponse>(
            base,
            repeated_text_fields(1, items),
            depth,
        ) == Some(
            PairsView { hash_type_pairs: items, ..base },
        ),
    decreases items.len(),
{
    let fs = repeated_text_fields(1, items);
    if items.len() == 0 {
        assert(items =~= base.hash_type_pairs);
    } else {
        let front = items.drop_last();
        lemma_query_data_request_wasms_response_hash_type_pairs(base, front, depth);
        assert(fs.drop_last() =~= repeated_text_fields(1, front));
        lemma_text_round_trip(items.last());
        assert(front.push(items.last()) =~= items);
    }
}

impl Message for QueryDataRequestWasmsResponse {
    fn blank() -> (r: Self) {
        let r = QueryDataRequestWasmsResponse {
            hash_type_pairs: Vec::new(),
        };
        assert(r@.hash_type_pairs =~= Seq::empty());
        r
    }

    fn fields(&self) -> (r: Vec<Field>) {
        let mut out: Vec<Field> = Vec::new();
        assert(fields_view(out@) =~= Seq::<WireField>::empty());
        push_texts(&mut out, 1, &self.hash_type_pairs);
        assert(fields_view(out@) =~= Self::spec_fields(self@));
        out
    }

    fn merge_field(self, f: &Field, depth: usize) -> (r: Option<Self>) {
        let QueryDataRequestWasmsResponse { hash_type_pairs } = self;
        if f.tag == 1 {
            match text_in(f) {
                Some(x) => {
                    let ghost before = texts_of(hash_type_pairs@);
                    let ghost item = x@;
                    let mut list = hash_type_pairs;
                    list.push(x);
                    assert(texts_of(list@) =~= before.push(item));
                    Some(QueryDataRequestWasmsResponse { hash_type_pairs: list })
                },
                None => None,
            }
        } else if depth == 0 {
            None
        } else {
            Some(QueryDataRequestWasmsResponse { hash_type_pairs })
        }
    }

    proof fn lemma_own_fields(v: PairsView, depth: nat) {
        let b = Self::spec_blank();
        let s0 = repeated_text_fields(1, v.hash_type_pairs);
        let v0 = PairsView { hash_type_pairs: v.hash_type_pairs };
        lemma_query_data_request_wasms_response_hash_type_pairs(b, v.hash_type_pairs, depth);
        assert(spec_merge::<QueryDataRequestWasmsResponse>(b, s0, depth) == Some(v0));
        assert(v0 == v);
    }

    proof fn lemma_unknown_field(v: PairsView, f: WireField, depth: nat) {
    }
}

impl Default for QueryDataRequestWasmsResponse {
    fn default() -> (r: Self)
        ensures
            r@ == Self::spec_blank(),
    {
        Self::blank()
    }
}

/// Decoding what a value of this type encodes to gives the value back.
pub proof fn lemma_query_data_request_wasms_response_round_trip(v: PairsView)
    requires
        QueryDataRequestWasmsResponse::spec_fits(v),
    ensures
        spec_decode::<QueryDataRequestWasmsResponse>(
            spec_encode::<QueryDataRequestWasmsResponse>(v),
        ) == Some(v),
{
    lemma_round_trip::<QueryDataRequestWasmsResponse>(v);
}

/// Asks for the overlay artifact with a given identifier.
#[derive(Clone, Debug, PartialEq, Eq)]
pub struct QueryOverlayWasmRequest {
    /// The identifier, as text.
    pub hash: String,
}

impl View for QueryOverlayWasmRequest {
    type V = HashView;

    open spec fn view(&self) -> HashView {
        HashView {
            hash: self.hash@,
        }
    }
}

impl Layout for QueryOverlayWasmRequest {
    open spec fn spec_blank() -> HashView {
        HashView {
            hash: Seq::empty(),
        }
    }

    open spec fn spec_fields(v: HashView) -> Seq<WireField> {
        text_field(1, v.hash)
    }

    open spec fn spec_merge_field(v: HashView, f: WireField, depth: nat) -> Option<HashView> {
        if f.tag == 1 {
            match spec_text_in(f) {
                Some(x) => Some(HashView { hash: x, ..v }),
                None => None,
            }
        } else if depth == 0 {
            None
        } else {
            Some(v)
        }
    }

    open spec fn spec_height() -> nat {
        0
    }

    open spec fn spec_known(tag: u32) -> bool {
        tag == 1
    }

    open spec fn spec_fits(v: HashView) -> bool {
        &&& encode_utf8(v.hash).len() <= u64::MAX
    }
}

impl Message for QueryOverlayWasmRequest {
    fn blank() -> (r: Self) {
        QueryOverlayWasmRequest {
            hash: String::new(),
        }
    }

    fn fields(&self) -> (r: Vec<Field>) {
        let mut out: Vec<Field> = Vec::new();
        assert(fields_view(out@) =~= Seq::<WireField>::empty());
        push_text(&mut out, 1, self.hash.as_str());
        assert(fields_view(out@) =~= Self::spec_fields(self@));
        out
    }

    fn merge_field(self, f: &Field, depth: usize) -> (r: Option<Self>) {
        let QueryOverlayWasmRequest { hash } = self;
        if f.tag == 1 {
            match text_in(f) {
                Some(x) => Some(QueryOverlayWasmRequest { hash: x }),
                None => None,
            }
        } else if depth == 0 {
            None
        } else {
            Some(QueryOverlayWasmRequest { hash })
        }
    }

    proof fn lemma_own_fields(v: HashView, depth: nat) {
        let b = Self::spec_blank();
        let s0 = text_field(1, v.hash);
        let v0 = HashView { hash: v.hash };
        lemma_text_round_trip(v.hash);
        lemma_merge_short::<QueryOverlayWasmRequest>(b, s0, depth);
        assert(spec_merge::<QueryOverlayWasmRequest>(b, s0, depth) == Some(v0));
        assert(v0 == v);
    }

    proof fn lemma_unknown_field(v: HashView, f: WireField, depth: nat) {
    }
}

impl Default for QueryOverlayWasmRequest {
    fn default() -> (r: Self)
        ensures
            r@ == Self::spec_blank(),
    {
        Self::blank()
    }
}

/// Decoding what a value of this type encodes to gives the value back.
pub proof fn lemma_query_overlay_wasm_request_round_trip(v: HashView)
    requires
        QueryOverlayWasmRequest::spec_fits(v),
    ensures
        spec_decode::<QueryOverlayWasmRequest>(
            spec_encode::<QueryOverlayWasmRequest>(v),
        ) == Some(v),
{
    lemma_round_trip::<QueryOverlayWasmRequest>(v);
}

/// The overlay artifact that was asked for, if there is one.
#[derive(Clone, Debug, PartialEq, Eq)]
pub struct QueryOverlayWasmResponse {
    pub wasm: Option<Wasm>,
}

impl View for QueryOverlayWasmResponse {
    type V = WasmReplyView;

    open spec fn view(&self) -> WasmReplyView {
        WasmReplyView {
            wasm: view_of(self.wasm),
        }
    }
}

impl Layout for QueryOverlayWasmResponse {
    open spec fn spec_blank() -> WasmReplyView {
        WasmReplyView {
            wasm: None,
        }
    }

    open spec fn spec_fields(v: WasmReplyView) -> Seq<WireField> {
        optional_field::<Wasm>(1, v.wasm)
    }

    open spec fn spec_merge_field(
        v: WasmReplyView,
        f: WireField,
        depth: nat,
    ) -> Option<WasmReplyView> {
        if f.tag == 1 {
            match spec_message_in::<Wasm>(v.wasm, f, depth) {
                Some(x) => Some(WasmReplyView { wasm: Some(x), ..v }),
                None => None,
            }
        } else if depth == 0 {
            None
        } else {
            Some(v)
        }
    }

    open spec fn spec_height() -> nat {
        2
    }

    open spec fn spec_known(tag: u32) -> bool {
        tag == 1
    }

    open spec fn spec_fits(v: WasmReplyView) -> bool {
        &&& match v.wasm {
            Some(m) => spec_fits_inside::<Wasm>(m),
            None => true,
        }
    }
}

impl Message for QueryOverlayWasmResponse {
    fn blank() -> (r: Self) {
        QueryOverlayWasmResponse {
            wasm: None,
        }
    }

    fn fields(&self) -> (r: Vec<Field>) {
        let mut out: Vec<Field> = Vec::new();
        assert(fields_view(out@) =~= Seq::<WireField>::empty());
        let ghost before = fields_view(out@);
        match &self.wasm {
            Some(m) => {
                push_message(&mut out, 1, m);
            },
            None => {},
        }
        assert(fields_view(out@) =~= before + optional_field::<Wasm>(1, self@.wasm));
        assert(fields_view(out@) =~= Self::spec_fields(self@));
        out
    }

    fn merge_field(self, f: &Field, depth: usize) -> (r: Option<Self>) {
        let QueryOverlayWasmResponse { wasm } = self;
        if f.tag == 1 {
            match message_in::<Wasm>(wasm, f, depth) {
                Some(x) => Some(QueryOverlayWasmResponse { wasm: Some(x) }),
                None => None,
            }
        } else if depth == 0 {
            None
        } else {
            Some(QueryOverlayWasmResponse { wasm })
        }
    }

    proof fn lemma_own_fields(v: WasmReplyView, depth: nat) {
        let b = Self::spec_blank();
        let s0 = optional_field::<Wasm>(1, v.wasm);
        let v0 = WasmReplyView { wasm: v.wasm };
        lemma_merge_short::<QueryOverlayWasmResponse>(b, s0, depth);
        match v.wasm {
            Some(m) => {
                lemma_message_field_round_trip::<Wasm>(1, m, depth);
            },
            None => {},
        }
        assert(spec_merge::<QueryOverlayWasmResponse>(b, s0, depth) == Some(v0));
        assert(v0 == v);
    }

    proof fn lemma_unknown_field(v: WasmReplyView, f: WireField, depth: nat) {
    }
}

impl Default for QueryOverlayWasmResponse {
    fn default() -> (r: Self)
        ensures
            r@ == Self::spec_blank(),
    {
        Self::blank()
    }
}

/// Decoding what a value of this type encodes to gives the value back.
pub proof fn lemma_query_overlay_wasm_response_round_trip(v: WasmReplyView)
    requires
        QueryOverlayWasmResponse::spec_fits(v),
    ensures
        spec_decode::<QueryOverlayWasmResponse>(
            spec_encode::<QueryOverlayWasmResponse>(v),
        ) == Some(v),
{
    lemma_round_trip::<QueryOverlayWasmResponse>(v);
}

/// Asks for all overlay artifacts. It has no fields.
#[derive(Clone, Debug, PartialEq, Eq)]
pub struct QueryOverlayWasmsRequest {
}

impl View for QueryOverlayWasmsRequest {
    type V = NoFieldsView;

    open spec fn view(&self) -> NoFieldsView {
        NoFieldsView {  }
    }
}

impl Layout for QueryOverlayWasmsRequest {
    open spec fn spec_blank() -> NoFieldsView {
        NoFieldsView {  }
    }

    open spec fn spec_fields(v: NoFieldsView) -> Seq<WireField> {
        Seq::empty()
    }

    open spec fn spec_merge_field(
        v: NoFieldsView,
        f: WireField,
        depth: nat,
    ) -> Option<NoFieldsView> {
        if depth == 0 {
            None
        } else {
            Some(v)
        }
    }

    open spec fn spec_height() -> nat {
        0
    }

    open spec fn spec_known(tag: u32) -> bool {
        false
    }

    open spec fn spec_fits(v: NoFieldsView) -> bool {
        true
    }
}

impl Message for QueryOverlayWasmsRequest {
    fn blank() -> (r: Self) {
        QueryOverlayWasmsRequest {  }
    }

    fn fields(&self) -> (r: Vec<Field>) {
        let out: Vec<Field> = Vec::new();
        assert(fields_view(out@) =~= Seq::<WireField>::empty());
        assert(fields_view(out@) =~= Self::spec_fields(self@));
        out
    }

    fn merge_field(self, f: &Field, depth: usize) -> (r: Option<Self>) {
        if depth == 0 {
            None
        } else {
            Some(self)
        }
    }

    proof fn lemma_own_fields(v: NoFieldsView, depth: nat) {
        let b = Self::spec_blank();
    }

    proof fn lemma_unknown_field(v: NoFieldsView, f: WireField, depth: nat) {
    }
}

impl Default for QueryOverlayWasmsRequest {
    fn default() -> (r: Self)
        ensures
            r@ == Self::spec_blank(),
    {
        Self::blank()
    }
}

/// Decoding what a value of this type encodes to gives the value back.
pub proof fn lemma_query_overlay_wasms_request_round_trip(v: NoFieldsView)
    requires
        QueryOverlayWasmsRequest::spec_fits(v),
    ensures
        spec_decode::<QueryOverlayWasmsRequest>(
            spec_encode::<QueryOverlayWasmsRequest>(v),
        ) == Some(v),
{
    lemma_round_trip::<QueryOverlayWasmsRequest>(v);
}

/// The overlay artifacts: for each, its identifier and role as one text.
#[derive(Clone, Debug, PartialEq, Eq)]
pub struct QueryOverlayWasmsResponse {
    pub hash_type_pairs: Vec<String>,
}

impl View for QueryOverlayWasmsResponse {
    type V = PairsView;

    open spec fn view(&self) -> PairsView {
        PairsView {
            hash_type_pairs: texts_of(self.hash_type_pairs@),
        }
    }
}

impl Layout for QueryOverlayWasmsResponse {
    open spec fn spec_blank() -> PairsView {
        PairsView {
            hash_type_pairs: Seq::empty(),
        }
    }

    open spec fn spec_fields(v: PairsView) -> Seq<WireField> {
        repeated_text_fields(1, v.hash_type_pairs)
    }

    open spec fn spec_merge_field(v: PairsView, f: WireField, depth: nat) -> Option<PairsView> {
        if f.tag == 1 {
            match spec_text_in(f) {
                Some(x) => Some(PairsView { hash_type_pairs: v.hash_type_pairs.push(x), ..v }),
                None => None,
            }
        } else if depth == 0 {
            None
        } else {
            Some(v)
        }
    }

    open spec fn spec_height() -> nat {
        0
    }

    open spec fn spec_known(tag: u32) -> bool {
        tag == 1
    }

    open spec fn spec_fits(v: PairsView) -> bool {
        &&& (forall|i: int|
            0 <= i < v.hash_type_pairs.len() ==> encode_utf8(#[trigger] v.hash_type_pairs[i]).len() <= u64::MAX)
    }
}

/// Merging the fields of a list into a value whose list is empty gives
/// the value with that list.
proof fn lemma_query_overlay_wasms_response_hash_type_pairs(
    base: PairsView,
    items: Seq<Seq<char>>,
    depth: nat,
)
    requires
        base.hash_type_pairs.len() == 0,
        forall|i: int|
            0 <= i < items.len() ==> encode_utf8(#[trigger] items[i]).len() <= u64::MAX,
    ensures
        spec_merge::<QueryOverlayWasmsResponse>(
            base,
            repeated_text_fields(1, items),
            depth,
        ) == Some(
            PairsView { hash_type_pairs: items, ..base },
        ),
    decreases items.len(),
{
    let fs = repeated_text_fields(1, items);
    if items.len() == 0 {
        assert(items =~= base.hash_type_pairs);
    } else {
        let front = items.drop_last();
        lemma_query_overlay_wasms_response_hash_type_pairs(base, front, depth);
        assert(fs.drop_last() =~= repeated_text_fields(1, front));
        lemma_text_round_trip(items.last());
        assert(front.push(items.last()) =~= items);
    }
}

impl Message for QueryOverlayWasmsResponse {
    fn blank() -> (r: Self) {
        let r = QueryOverlayWasmsResponse {
            hash_type_pairs: Vec::new(),
        };
        assert(r@.hash_type_pairs =~= Seq::empty());
        r
    }

    fn fields(&self) -> (r: Vec<Field>) {
        let mut out: Vec<Field> = Vec::new();
        assert(fields_view(out@) =~= Seq::<WireField>::empty());
        push_texts(&mut out, 1, &self.hash_type_pairs);
        assert(fields_view(out@) =~= Self::spec_fields(self@));
        out
    }

    fn merge_field(self, f: &Field, depth: usize) -> (r: Option<Self>) {
        let QueryOverlayWasmsResponse { hash_type_pairs } = self;
        if f.tag == 1 {
            match text_in(f) {
                Some(x) => {
                    let ghost before = texts_of(hash_type_pairs@);
                    let ghost item = x@;
                    let mut list = hash_type_pairs;
                    list.push(x);
                    assert(texts_of(list@) =~= before.push(item));
                    Some(QueryOverlayWasmsResponse { hash_type_pairs: list })
                },
                None => None,
            }
        } else if depth == 0 {
            None
        } else {
            Some(QueryOverlayWasmsResponse { hash_type_pairs })
        }
    }

    proof fn lemma_own_fields(v: PairsView, depth: nat) {
        let b = Self::spec_blank();
        let s0 = repeated_text_fields(1, v.hash_type_pairs);
        let v0 = PairsView { hash_type_pairs: v.hash_type_pairs };
        lemma_query_overlay_wasms_response_hash_type_pairs(b, v.hash_type_pairs, depth);
        assert(spec_merge::<QueryOverlayWasmsResponse>(b, s0, depth) == Some(v0));
        assert(v0 == v);
    }

    proof fn lemma_unknown_field(v: PairsView, f: WireField, depth: nat) {
    }
}

impl Default for QueryOverlayWasmsResponse {
    fn default() -> (r: Self)
        ensures
            r@ == Self::spec_blank(),
    {
        Self::blank()
    }
}

/// Decoding what a value of this type encodes to gives the value back.
pub proof fn lemma_query_overlay_wasms_response_round_trip(v: PairsView)
    requires
        QueryOverlayWasmsResponse::spec_fits(v),
    ensures
        spec_decode::<QueryOverlayWasmsResponse>(
            spec_encode::<QueryOverlayWasmsResponse>(v),
        ) == Some(v),
{
    lemma_round_trip::<QueryOverlayWasmsResponse>(v);
}

/// A message without fields encodes to no bytes.
pub proof fn lemma_no_fields_encode_empty(v: NoFieldsView)
    ensures
        spec_encode::<QueryDataRequestWasmsRequest>(v) == Seq::<u8>::empty(),
        spec_encode::<QueryOverlayWasmsRequest>(v) == Seq::<u8>::empty(),
{
}

} // verus!
