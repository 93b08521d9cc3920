//! The role of a stored WebAssembly artifact.

use vstd::prelude::*;
use vstd::utf8::*;

verus! {

/// The role that a stored artifact plays. The numbers of the five variants
/// are fixed on the wire: see [`WasmType::number`].
#[derive(Clone, Copy, Debug, PartialEq, Eq, Structural, Hash, PartialOrd, Ord)]
pub enum WasmType {
    Unspecified,
    DataRequest,
    Tally,
    DataRequestExecutor,
    Relayer,
}

/// Whether two string slices hold the same characters.
fn same_text(a: &str, b: &str) -> (r: bool)
    ensures
        r == (a@ == b@),
{
    let x = a.as_bytes();
    let y = b.as_bytes();
    proof {
        encode_utf8_decode_utf8(a@);
        encode_utf8_decode_utf8(b@);
    }
    if x.len() != y.len() {
        return false;
    }
    let mut i: usize = 0;
    while i < x.len()
        invariant
            x.len() == y.len(),
            i <= x.len(),
            x@ == encode_utf8(a@),
            y@ == encode_utf8(b@),
            forall|j: int| 0 <= j < i ==> x@[j] == y@[j],
        decreases x.len() - i,
    {
        if x[i] != y[i] {
            return false;
        }
        i += 1;
    }
    assert(x@ =~= y@);
    true
}

impl WasmType {
    /// The name of a variant in the schema.
    pub open spec fn spec_name(self) -> Seq<char> {
        match self {
            WasmType::Unspecified => "WASM_TYPE_UNSPECIFIED"@,
            WasmType::DataRequest => "WASM_TYPE_DATA_REQUEST"@,
            WasmType::Tally => "WASM_TYPE_TALLY"@,
            WasmType::DataRequestExecutor => "WASM_TYPE_DATA_REQUEST_EXECUTOR"@,
            WasmType::Relayer => "WASM_TYPE_RELAYER"@,
        }
    }

    /// The variant that a schema name stands for, if any.
    pub open spec fn spec_from_name(name: Seq<char>) -> Option<WasmType> {
        if name == WasmType::Unspecified.spec_name() {
            Some(WasmType::Unspecified)
        } else if name == WasmType::DataRequest.spec_name() {
            Some(WasmType::DataRequest)
        } else if name == WasmType::Tally.spec_name() {
            Some(WasmType::Tally)
        } else if name == WasmType::DataRequestExecutor.spec_name() {
            Some(WasmType::DataRequestExecutor)
        } else if name == WasmType::Relayer.spec_name() {
            Some(WasmType::Relayer)
        } else {
            None
        }
    }

    /// The number that stands for a variant on the wire.
    pub open spec fn spec_number(self) -> i32 {
        match self {
            WasmType::Unspecified => 0i32,
            WasmType::DataRequest => 1i32,
            WasmType::Tally => 2i32,
            WasmType::DataRequestExecutor => 3i32,
            WasmType::Relayer => 4i32,
        }
    }

    /// The variant that a wire number stands for, if any.
    pub open spec fn spec_from_i32(value: i32) -> Option<WasmType> {
        if value == 0 {
            Some(WasmType::Unspecified)
        } else if value == 1 {
            Some(WasmType::DataRequest)
        } else if value == 2 {
            Some(WasmType::Tally)
        } else if value == 3 {
            Some(WasmType::DataRequestExecutor)
        } else if value == 4 {
            Some(WasmType::Relayer)
        } else {
            None
        }
    }

    /// The name of the variant as the schema writes it.
    pub fn as_str_name(&self) -> (r: &'static str)
        ensures
            r@ == self.spec_name(),
    {
        match self {
            WasmType::Unspecified => "WASM_TYPE_UNSPECIFIED",
            WasmType::DataRequest => "WASM_TYPE_DATA_REQUEST",
            WasmType::Tally => "WASM_TYPE_TALLY",
            WasmType::DataRequestExecutor => "WASM_TYPE_DATA_REQUEST_EXECUTOR",
            WasmType::Relayer => "WASM_TYPE_RELAYER",
        }
    }

    /// The variant with the given schema name; `None` for any other text.
    pub fn from_str_name(value: &str) -> (r: Option<WasmType>)
        ensures
            r == WasmType::spec_from_name(value@),
    {
        if same_text(value, "WASM_TYPE_UNSPECIFIED") {
            Some(WasmType::Unspecified)
        } else if same_text(value, "WASM_TYPE_DATA_REQUEST") {
            Some(WasmType::DataRequest)
        } else if same_text(value, "WASM_TYPE_TALLY") {
            Some(WasmType::Tally)
        } else if same_text(value, "WASM_TYPE_DATA_REQUEST_EXECUTOR") {
            Some(WasmType::DataRequestExecutor)
        } else if same_text(value, "WASM_TYPE_RELAYER") {
            Some(WasmType::Relayer)
        } else {
            None
        }
    }

    /// The wire number of the variant.
    pub fn number(self) -> (r: i32)
        ensures
            r == self.spec_number(),
    {
        match self {
            WasmType::Unspecified => 0,
            WasmType::DataRequest => 1,
            WasmType::Tally => 2,
            WasmType::DataRequestExecutor => 3,
            WasmType::Relayer => 4,
        }
    }

    /// The variant with the given wire number; `None` for a number that the
    /// schema does not declare.
    pub fn from_i32(value: i32) -> (r: Option<WasmType>)
        ensures
            r == WasmType::spec_from_i32(value),
    {
        if value == 0 {
            Some(WasmType::Unspecified)
        } else if value == 1 {
            Some(WasmType::DataRequest)
        } else if value == 2 {
            Some(WasmType::Tally)
        } else if value == 3 {
            Some(WasmType::DataRequestExecutor)
        } else if value == 4 {
            Some(WasmType::Relayer)
        } else {
            None
        }
    }

    /// Whether the schema declares a variant with this wire number.
    pub fn is_valid(value: i32) -> (r: bool)
        ensures
            r == WasmType::spec_from_i32(value).is_some(),
            r == (0 <= value <= 4),
    {
        0 <= value && value <= 4
    }
}

impl Default for WasmType {
    fn default() -> (r: WasmType)
        ensures
            r == WasmType::Unspecified,
    {
        WasmType::Unspecified
    }
}

/// Reading a variant's schema name back gives the variant.
pub proof fn lemma_name_round_trip(v: WasmType)
    ensures
        WasmType::spec_from_name(v.spec_name()) == Some(v),
{
    reveal_strlit("WASM_TYPE_UNSPECIFIED");
    reveal_strlit("WASM_TYPE_DATA_REQUEST");
    reveal_strlit("WASM_TYPE_TALLY");
    reveal_strlit("WASM_TYPE_DATA_REQUEST_EXECUTOR");
    reveal_strlit("WASM_TYPE_RELAYER");
    assert(WasmType::Unspecified.spec_name().len() == 21);
    assert(WasmType::DataRequest.spec_name().len() == 22);
    assert(WasmType::Tally.spec_name().len() == 15);
    assert(WasmType::DataRequestExecutor.spec_name().len() == 31);
    assert(WasmType::Relayer.spec_name().len() == 17);
}

/// Two variants with the same schema name are the same variant.
pub proof fn lemma_names_distinct(a: WasmType, b: WasmType)
    requires
        a.spec_name() == b.spec_name(),
    ensures
        a == b,
{
    lemma_name_round_trip(a);
    lemma_name_round_trip(b);
}

/// Reading a variant's wire number back gives the variant.
pub proof fn lemma_number_round_trip(v: WasmType)
    ensures
        WasmType::spec_from_i32(v.spec_number()) == Some(v),
{
}

} // verus!
