//! Messages of the wasm-storage module and their protobuf wire encoding.
//!
//! Every message type has a mathematical view, a list of wire fields that
//! stands for a value, and a rule for merging one wire field into a value.
//! Encoding and decoding are stated over these, and the laws that connect
//! them are proved: decoding what was encoded gives the value back, and
//! fields with tags that a message does not declare change nothing.

pub mod wasm_type;
pub mod wire;
pub mod message;
pub mod scalar;
pub mod timestamp;
pub mod wasm;
pub mod genesis;
pub mod query;
pub mod tx;

pub use crate::genesis::GenesisState;
pub use crate::message::{decode, encode, merge, merge_within, DecodeError, Layout, Message};
pub use crate::query::{
    QueryDataRequestWasmRequest, QueryDataRequestWasmResponse, QueryDataRequestWasmsRequest,
    QueryDataRequestWasmsResponse, QueryOverlayWasmRequest, QueryOverlayWasmResponse,
    QueryOverlayWasmsRequest, QueryOverlayWasmsResponse,
};
pub use crate::timestamp::Timestamp;
pub use crate::tx::{
    MsgStoreDataRequestWasm, MsgStoreDataRequestWasmResponse, MsgStoreOverlayWasm,
    MsgStoreOverlayWasmResponse,
};
pub use crate::wasm::{Params, Wasm};
pub use crate::wasm_type::WasmType;
