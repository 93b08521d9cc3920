use wasm_storage::WasmType;

fn all() -> Vec<WasmType> {
    vec![
        WasmType::Unspecified,
        WasmType::DataRequest,
        WasmType::Tally,
        WasmType::DataRequestExecutor,
        WasmType::Relayer,
    ]
}

#[test]
fn names_are_those_of_the_schema() {
    assert_eq!(WasmType::Unspecified.as_str_name(), "WASM_TYPE_UNSPECIFIED");
    assert_eq!(WasmType::DataRequest.as_str_name(), "WASM_TYPE_DATA_REQUEST");
    assert_eq!(WasmType::Tally.as_str_name(), "WASM_TYPE_TALLY");
    assert_eq!(WasmType::DataRequestExecutor.as_str_name(), "WASM_TYPE_DATA_REQUEST_EXECUTOR");
    assert_eq!(WasmType::Relayer.as_str_name(), "WASM_TYPE_RELAYER");
}

#[test]
fn names_are_read_back() {
    assert_eq!(WasmType::from_str_name("WASM_TYPE_UNSPECIFIED"), Some(WasmType::Unspecified));
    assert_eq!(WasmType::from_str_name("WASM_TYPE_DATA_REQUEST"), Some(WasmType::DataRequest));
    assert_eq!(WasmType::from_str_name("WASM_TYPE_TALLY"), Some(WasmType::Tally));
    assert_eq!(
        WasmType::from_str_name("WASM_TYPE_DATA_REQUEST_EXECUTOR"),
        Some(WasmType::DataRequestExecutor)
    );
    assert_eq!(WasmType::from_str_name("WASM_TYPE_RELAYER"), Some(WasmType::Relayer));
}

#[test]
fn name_round_trip_for_every_variant() {
    for v in all() {
        assert_eq!(WasmType::from_str_name(v.as_str_name()), Some(v));
    }
}

#[test]
fn bogus_name_is_none() {
    assert_eq!(WasmType::from_str_name("bogus"), None);
}

#[test]
fn near_misses_are_none() {
    assert_eq!(WasmType::from_str_name(""), None);
    assert_eq!(WasmType::from_str_name("WASM_TYPE_TALLY "), None);
    assert_eq!(WasmType::from_str_name("wasm_type_tally"), None);
    assert_eq!(WasmType::from_str_name("WASM_TYPE_DATA_REQUEST_"), None);
    assert_eq!(WasmType::from_str_name("Tally"), None);
}

#[test]
fn numbers_are_those_of_the_schema() {
    assert_eq!(WasmType::Unspecified.number(), 0);
    assert_eq!(WasmType::DataRequest.number(), 1);
    assert_eq!(WasmType::Tally.number(), 2);
    assert_eq!(WasmType::DataRequestExecutor.number(), 3);
    assert_eq!(WasmType::Relayer.number(), 4);
}

#[test]
fn number_round_trip_for_every_variant() {
    for v in all() {
        assert_eq!(WasmType::from_i32(v.number()), Some(v));
        assert!(WasmType::is_valid(v.number()));
    }
}

#[test]
fn undeclared_numbers_are_none() {
    assert_eq!(WasmType::from_i32(5), None);
    assert_eq!(WasmType::from_i32(-1), None);
    assert!(!WasmType::is_valid(5));
    assert!(!WasmType::is_valid(-1));
    assert!(!WasmType::is_valid(i32::MIN));
}

#[test]
fn default_role_is_unspecified() {
    assert_eq!(WasmType::default(), WasmType::Unspecified);
}
