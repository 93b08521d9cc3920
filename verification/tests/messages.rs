use prost::Message as ProstMessage;
use wasm_storage::{
    decode, encode, merge, DecodeError, GenesisState, Message, MsgStoreDataRequestWasm,
    MsgStoreDataRequestWasmResponse, MsgStoreOverlayWasm, MsgStoreOverlayWasmResponse, Params,
    QueryDataRequestWasmRequest, QueryDataRequestWasmResponse, QueryDataRequestWasmsRequest,
    QueryDataRequestWasmsResponse, QueryOverlayWasmRequest, QueryOverlayWasmResponse,
    QueryOverlayWasmsRequest, QueryOverlayWasmsResponse, Timestamp, Wasm, WasmType,
};

fn sample_wasm() -> Wasm {
    Wasm {
        hash: vec![0xAB, 0xCD],
        bytecode: vec![0x00, 0x61, 0x73, 0x6D],
        wasm_type: WasmType::DataRequest.number(),
        added_at: None,
    }
}

fn dated_wasm() -> Wasm {
    Wasm {
        hash: vec![1, 2, 3],
        bytecode: vec![0; 200],
        wasm_type: 4,
        added_at: Some(Timestamp { seconds: 1_700_000_000, nanos: 999_999_999 }),
    }
}

#[test]
fn wasm_example_round_trip() {
    let w = sample_wasm();
    let bytes = encode(&w);
    let back: Wasm = decode(&bytes).unwrap();
    assert_eq!(back.hash, vec![0xAB, 0xCD]);
    assert_eq!(back.bytecode, vec![0x00, 0x61, 0x73, 0x6D]);
    assert_eq!(back.wasm_type, 1);
    assert_eq!(back.wasm_type(), WasmType::DataRequest);
    assert_eq!(back.added_at, None);
    assert_eq!(back, w);
}

#[test]
fn wasm_example_exact_bytes() {
    assert_eq!(
        encode(&sample_wasm()),
        vec![0x0A, 0x02, 0xAB, 0xCD, 0x12, 0x04, 0x00, 0x61, 0x73, 0x6D, 0x18, 0x01]
    );
}

#[test]
fn timestamp_exact_bytes() {
    assert_eq!(encode(&Timestamp { seconds: 1, nanos: 2 }), vec![0x08, 0x01, 0x10, 0x02]);
    assert_eq!(encode(&Timestamp { seconds: 0, nanos: 0 }), Vec::<u8>::new());
    assert_eq!(
        encode(&Timestamp { seconds: -1, nanos: 0 }),
        vec![0x08, 0xFF, 0xFF, 0xFF, 0xFF, 0xFF, 0xFF, 0xFF, 0xFF, 0xFF, 0x01]
    );
    assert_eq!(
        encode(&Timestamp { seconds: 0, nanos: -2 }),
        vec![0x10, 0xFE, 0xFF, 0xFF, 0xFF, 0xFF, 0xFF, 0xFF, 0xFF, 0xFF, 0x01]
    );
}

#[test]
fn timestamp_agrees_with_prost() {
    let cases: Vec<(i64, i32)> = vec![
        (0, 0),
        (1, 2),
        (-1, -1),
        (i64::MAX, i32::MAX),
        (i64::MIN, i32::MIN),
        (1_700_000_000, 999_999_999),
        (0, -5),
        (-62135596800, 0),
    ];
    for (seconds, nanos) in cases {
        let ours = Timestamp { seconds, nanos };
        let theirs = prost_types::Timestamp { seconds, nanos };
        let bytes = encode(&ours);
        assert_eq!(bytes, theirs.encode_to_vec());
        let back = prost_types::Timestamp::decode(&bytes[..]).unwrap();
        assert_eq!((back.seconds, back.nanos), (seconds, nanos));
        assert_eq!(decode::<Timestamp>(&theirs.encode_to_vec()), Ok(ours));
    }
}

#[test]
fn wasm_agrees_with_prost_field_encoders() {
    let w = dated_wasm();
    let mut theirs: Vec<u8> = Vec::new();
    prost::encoding::bytes::encode(1, &w.hash, &mut theirs);
    prost::encoding::bytes::encode(2, &w.bytecode, &mut theirs);
    prost::encoding::int32::encode(3, &w.wasm_type, &mut theirs);
    let t = prost_types::Timestamp { seconds: 1_700_000_000, nanos: 999_999_999 };
    prost::encoding::message::encode(4, &t, &mut theirs);
    assert_eq!(encode(&w), theirs);
    assert_eq!(decode::<Wasm>(&theirs), Ok(w));
}

#[test]
fn negative_role_number_takes_ten_bytes() {
    let w = Wasm { hash: vec![], bytecode: vec![], wasm_type: -1, added_at: None };
    let bytes = encode(&w);
    assert_eq!(bytes, vec![0x18, 0xFF, 0xFF, 0xFF, 0xFF, 0xFF, 0xFF, 0xFF, 0xFF, 0xFF, 0x01]);
    let mut theirs: Vec<u8> = Vec::new();
    prost::encoding::int32::encode(3, &-1, &mut theirs);
    assert_eq!(bytes, theirs);
    let back: Wasm = decode(&bytes).unwrap();
    assert_eq!(back.wasm_type, -1);
    assert_eq!(back.wasm_type(), WasmType::Unspecified);
}

#[test]
fn int32_keeps_the_low_32_bits() {
    // 2^32 + 7 in field 3
    let bytes = vec![0x18, 0x87, 0x80, 0x80, 0x80, 0x10];
    let back: Wasm = decode(&bytes).unwrap();
    assert_eq!(back.wasm_type, 7);
    let bytes = vec![0x18, 0xFF, 0xFF, 0xFF, 0xFF, 0x0F];
    let back: Wasm = decode(&bytes).unwrap();
    assert_eq!(back.wasm_type, -1);
    let min = Wasm { hash: vec![], bytecode: vec![], wasm_type: i32::MIN, added_at: None };
    assert_eq!(decode::<Wasm>(&encode(&min)), Ok(min));
}

#[test]
fn set_wasm_type_writes_the_number() {
    let mut w = sample_wasm();
    w.set_wasm_type(WasmType::Relayer);
    assert_eq!(w.wasm_type, 4);
    assert_eq!(w.wasm_type(), WasmType::Relayer);
    assert_eq!(w.hash, vec![0xAB, 0xCD]);
    let mut m = MsgStoreOverlayWasm { sender: String::from("a"), wasm: vec![1], wasm_type: 0 };
    m.set_wasm_type(WasmType::Tally);
    assert_eq!(m.wasm_type, 2);
    assert_eq!(m.wasm_type(), WasmType::Tally);
    let mut d = MsgStoreDataRequestWasm { sender: String::from("a"), wasm: vec![1], wasm_type: 9 };
    assert_eq!(d.wasm_type(), WasmType::Unspecified);
    d.set_wasm_type(WasmType::DataRequestExecutor);
    assert_eq!(d.wasm_type, 3);
}

#[test]
fn present_blank_timestamp_differs_from_absent() {
    let w = Wasm {
        hash: vec![],
        bytecode: vec![],
        wasm_type: 0,
        added_at: Some(Timestamp { seconds: 0, nanos: 0 }),
    };
    let bytes = encode(&w);
    assert_eq!(bytes, vec![0x22, 0x00]);
    let back: Wasm = decode(&bytes).unwrap();
    assert_eq!(back.added_at, Some(Timestamp { seconds: 0, nanos: 0 }));
    let none: Wasm = decode(&[]).unwrap();
    assert_eq!(none.added_at, None);
}

#[test]
fn empty_request_is_zero_bytes() {
    assert_eq!(encode(&QueryDataRequestWasmsRequest {}), Vec::<u8>::new());
    assert_eq!(encode(&QueryOverlayWasmsRequest {}), Vec::<u8>::new());
    assert_eq!(decode::<QueryDataRequestWasmsRequest>(&[]), Ok(QueryDataRequestWasmsRequest::default()));
    assert_eq!(decode::<QueryDataRequestWasmsRequest>(&[]), Ok(QueryDataRequestWasmsRequest {}));
    assert_eq!(decode::<QueryOverlayWasmsRequest>(&[]), Ok(QueryOverlayWasmsRequest {}));
}

#[test]
fn zero_bytes_decode_to_defaults() {
    assert_eq!(decode::<Wasm>(&[]), Ok(Wasm::default()));
    assert_eq!(
        Wasm::default(),
        Wasm { hash: vec![], bytecode: vec![], wasm_type: 0, added_at: None }
    );
    assert_eq!(decode::<Params>(&[]), Ok(Params { max_wasm_size: 0 }));
    assert_eq!(decode::<GenesisState>(&[]), Ok(GenesisState { params: None, wasms: vec![] }));
    assert_eq!(encode(&Wasm::blank()), Vec::<u8>::new());
    assert_eq!(encode(&GenesisState::default()), Vec::<u8>::new());
}

#[test]
fn params_round_trip() {
    assert_eq!(encode(&Params { max_wasm_size: 800_000 }), vec![0x08, 0x80, 0xEA, 0x30]);
    for v in vec![0u64, 1, 800_000, u64::MAX] {
        let p = Params { max_wasm_size: v };
        assert_eq!(decode::<Params>(&encode(&p)), Ok(p));
        let mut theirs: Vec<u8> = Vec::new();
        if v != 0 {
            prost::encoding::uint64::encode(1, &v, &mut theirs);
        }
        assert_eq!(encode(&p), theirs);
    }
}

#[test]
fn genesis_round_trip() {
    let g = GenesisState {
        params: Some(Params { max_wasm_size: 1 << 20 }),
        wasms: vec![sample_wasm(), Wasm::default(), dated_wasm()],
    };
    let bytes = encode(&g);
    let back: GenesisState = decode(&bytes).unwrap();
    assert_eq!(back.wasms.len(), 3);
    assert_eq!(back.wasms[0], sample_wasm());
    assert_eq!(back.wasms[1], Wasm::default());
    assert_eq!(back.wasms[2], dated_wasm());
    assert_eq!(back, g);
}

#[test]
fn genesis_exact_bytes() {
    let g = GenesisState {
        params: Some(Params { max_wasm_size: 5 }),
        wasms: vec![sample_wasm(), Wasm::default()],
    };
    assert_eq!(
        encode(&g),
        vec![
            0x0A, 0x02, 0x08, 0x05, 0x12, 0x0C, 0x0A, 0x02, 0xAB, 0xCD, 0x12, 0x04, 0x00, 0x61,
            0x73, 0x6D, 0x18, 0x01, 0x12, 0x00
        ]
    );
}

#[test]
fn query_requests_round_trip() {
    let q = QueryDataRequestWasmRequest { hash: String::from("abcd") };
    assert_eq!(encode(&q), vec![0x0A, 0x04, 0x61, 0x62, 0x63, 0x64]);
    assert_eq!(decode::<QueryDataRequestWasmRequest>(&encode(&q)), Ok(q));
    let o = QueryOverlayWasmRequest { hash: String::from("h\u{e9}llo \u{1F600}") };
    let bytes = encode(&o);
    let mut theirs: Vec<u8> = Vec::new();
    prost::encoding::string::encode(1, &o.hash, &mut theirs);
    assert_eq!(bytes, theirs);
    let back: QueryOverlayWasmRequest = decode(&bytes).unwrap();
    assert_eq!(back.hash, "h\u{e9}llo \u{1F600}");
    assert_eq!(encode(&QueryOverlayWasmRequest { hash: String::new() }), Vec::<u8>::new());
}

#[test]
fn query_responses_round_trip() {
    let r = QueryDataRequestWasmResponse { wasm: Some(dated_wasm()) };
    assert_eq!(decode::<QueryDataRequestWasmResponse>(&encode(&r)), Ok(r));
    let r = QueryDataRequestWasmResponse { wasm: None };
    assert_eq!(encode(&r), Vec::<u8>::new());
    assert_eq!(decode::<QueryDataRequestWasmResponse>(&[]), Ok(r));
    let r = QueryOverlayWasmResponse { wasm: Some(sample_wasm()) };
    let bytes = encode(&r);
    assert_eq!(bytes[0], 0x0A);
    assert_eq!(bytes[1], 12);
    assert_eq!(decode::<QueryOverlayWasmResponse>(&bytes), Ok(r));
}

#[test]
fn lists_of_texts_keep_order_and_empty_items() {
    let r = QueryDataRequestWasmsResponse {
        hash_type_pairs: vec![String::from("b,1"), String::new(), String::from("a,2")],
    };
    let bytes = encode(&r);
    assert_eq!(
        bytes,
        vec![0x0A, 0x03, 0x62, 0x2C, 0x31, 0x0A, 0x00, 0x0A, 0x03, 0x61, 0x2C, 0x32]
    );
    assert_eq!(decode::<QueryDataRequestWasmsResponse>(&bytes), Ok(r));
    let o: QueryOverlayWasmsResponse = decode(&bytes).unwrap();
    assert_eq!(o.hash_type_pairs, vec!["b,1", "", "a,2"]);
    assert_eq!(encode(&o), bytes);
}

#[test]
fn store_messages_round_trip() {
    let m = MsgStoreDataRequestWasm {
        sender: String::from("seda1xyz"),
        wasm: vec![0x00, 0x61, 0x73, 0x6D, 1, 0, 0, 0],
        wasm_type: WasmType::Tally.number(),
    };
    let bytes = encode(&m);
    let mut theirs: Vec<u8> = Vec::new();
    prost::encoding::string::encode(1, &m.sender, &mut theirs);
    prost::encoding::bytes::encode(2, &m.wasm, &mut theirs);
    prost::encoding::int32::encode(3, &m.wasm_type, &mut theirs);
    assert_eq!(bytes, theirs);
    assert_eq!(decode::<MsgStoreDataRequestWasm>(&bytes), Ok(m));
    let o: MsgStoreOverlayWasm = decode(&bytes).unwrap();
    assert_eq!(o.sender, "seda1xyz");
    assert_eq!(o.wasm_type(), WasmType::Tally);
    assert_eq!(encode(&o), bytes);
    let r = MsgStoreDataRequestWasmResponse { hash: String::from("ff00") };
    assert_eq!(decode::<MsgStoreDataRequestWasmResponse>(&encode(&r)), Ok(r));
    let r = MsgStoreOverlayWasmResponse { hash: String::from("ff00") };
    assert_eq!(encode(&r), vec![0x0A, 0x04, 0x66, 0x66, 0x30, 0x30]);
    assert_eq!(decode::<MsgStoreOverlayWasmResponse>(&encode(&r)), Ok(r));
}

#[test]
fn unknown_fields_are_passed_over() {
    let known = encode(&sample_wasm());
    // field 9 varint, field 10 bytes, field 11 four bytes, field 12 eight bytes
    let unknown: Vec<Vec<u8>> = vec![
        vec![0x48, 0x96, 0x01],
        vec![0x52, 0x03, 1, 2, 3],
        vec![0x5D, 1, 2, 3, 4],
        vec![0x61, 1, 2, 3, 4, 5, 6, 7, 8],
    ];
    for u in unknown {
        let mut after = known.clone();
        after.extend_from_slice(&u);
        assert_eq!(decode::<Wasm>(&after), Ok(sample_wasm()));
        let mut before = u.clone();
        before.extend_from_slice(&known);
        assert_eq!(decode::<Wasm>(&before), Ok(sample_wasm()));
        let mut middle = known[..4].to_vec();
        middle.extend_from_slice(&u);
        middle.extend_from_slice(&known[4..]);
        assert_eq!(decode::<Wasm>(&middle), Ok(sample_wasm()));
        assert_eq!(decode::<QueryDataRequestWasmsRequest>(&u), Ok(QueryDataRequestWasmsRequest {}));
    }
}

#[test]
fn unknown_field_cut_short_is_an_error() {
    let mut bytes = encode(&sample_wasm());
    bytes.extend_from_slice(&[0x52, 0x03, 1, 2]);
    assert_eq!(decode::<Wasm>(&bytes), Err(DecodeError {}));
}

#[test]
fn last_scalar_counts() {
    let bytes = vec![0x0A, 0x01, 0x01, 0x18, 0x01, 0x0A, 0x02, 0x07, 0x08, 0x18, 0x02];
    let w: Wasm = decode(&bytes).unwrap();
    assert_eq!(w.hash, vec![7, 8]);
    assert_eq!(w.wasm_type, 2);
}

#[test]
fn a_message_that_stands_twice_is_merged() {
    // added_at with seconds only, then added_at with nanos only
    let bytes = vec![0x22, 0x02, 0x08, 0x05, 0x22, 0x02, 0x10, 0x06];
    let w: Wasm = decode(&bytes).unwrap();
    assert_eq!(w.added_at, Some(Timestamp { seconds: 5, nanos: 6 }));
}

#[test]
fn merge_keeps_what_the_bytes_do_not_name() {
    let w = merge(dated_wasm(), &[0x0A, 0x01, 0x09]).unwrap();
    assert_eq!(w.hash, vec![9]);
    assert_eq!(w.bytecode, vec![0; 200]);
    assert_eq!(w.wasm_type, 4);
    assert_eq!(w.added_at, Some(Timestamp { seconds: 1_700_000_000, nanos: 999_999_999 }));
    let g = GenesisState { params: None, wasms: vec![sample_wasm()] };
    let g = merge(g, &[0x12, 0x00]).unwrap();
    assert_eq!(g.wasms, vec![sample_wasm(), Wasm::default()]);
}

#[test]
fn malformed_input_is_a_decode_error() {
    // cut short
    let bytes = encode(&sample_wasm());
    assert_eq!(decode::<Wasm>(&bytes[..bytes.len() - 1]), Err(DecodeError {}));
    assert_eq!(decode::<Wasm>(&bytes[..3]), Err(DecodeError {}));
    // a declared tag with a payload of the wrong kind
    assert_eq!(decode::<Wasm>(&[0x08, 0x01]), Err(DecodeError {}));
    assert_eq!(decode::<Wasm>(&[0x1A, 0x01, 0x01]), Err(DecodeError {}));
    assert_eq!(decode::<Wasm>(&[0x20, 0x01]), Err(DecodeError {}));
    assert_eq!(decode::<Params>(&[0x0A, 0x00]), Err(DecodeError {}));
    // tag 0, and a kind that does not exist
    assert_eq!(decode::<Wasm>(&[0x00, 0x00]), Err(DecodeError {}));
    assert_eq!(decode::<Wasm>(&[0x4F, 0x00]), Err(DecodeError {}));
    // a malformed message inside
    assert_eq!(decode::<Wasm>(&[0x22, 0x01, 0x08]), Err(DecodeError {}));
    assert_eq!(decode::<GenesisState>(&[0x12, 0x02, 0x0A, 0x05]), Err(DecodeError {}));
}

#[test]
fn text_that_is_not_utf8_is_a_decode_error() {
    assert_eq!(decode::<QueryDataRequestWasmRequest>(&[0x0A, 0x02, 0xC3, 0x28]), Err(DecodeError {}));
    assert_eq!(decode::<QueryOverlayWasmsResponse>(&[0x0A, 0x01, 0xFF]), Err(DecodeError {}));
    assert_eq!(decode::<MsgStoreDataRequestWasm>(&[0x0A, 0x03, 0xED, 0xA0, 0x80]), Err(DecodeError {}));
    // the same bytes are fine where the field holds bytes
    let w: Wasm = decode(&[0x0A, 0x02, 0xC3, 0x28]).unwrap();
    assert_eq!(w.hash, vec![0xC3, 0x28]);
}

#[test]
fn text_is_decoded_not_handed_back() {
    let q: QueryDataRequestWasmRequest = decode(&[0x0A, 0x03, 0xE2, 0x82, 0xAC]).unwrap();
    assert_eq!(q.hash, "\u{20AC}");
    assert_eq!(q.hash.chars().count(), 1);
}
