use prost::Message as ProstMessage;
use wasm_storage::wire::{read_fields, write_fields, Payload, RECURSION_LIMIT};
use wasm_storage::{
    decode, encode, merge_within, DecodeError, QueryDataRequestWasmResponse, Timestamp, Wasm,
};

fn ours(b: &[u8]) -> Option<(i64, i32)> {
    decode::<Timestamp>(b).ok().map(|t| (t.seconds, t.nanos))
}

fn theirs(b: &[u8]) -> Option<(i64, i32)> {
    prost_types::Timestamp::decode(b).ok().map(|t| (t.seconds, t.nanos))
}

fn nested(depth: usize) -> Vec<u8> {
    let mut b = vec![0x08, 0x07];
    for _ in 0..depth {
        b.push(0x4B);
    }
    for _ in 0..depth {
        b.push(0x4C);
    }
    b
}

#[test]
fn a_group_is_read_as_one_field() {
    let bytes = vec![0x4B, 0x08, 0x01, 0x53, 0x54, 0x4C, 0x10, 0x02];
    let fs = read_fields(&bytes, RECURSION_LIMIT).unwrap();
    assert_eq!(fs.len(), 2);
    assert_eq!(fs[0].tag, 9);
    assert!(matches!(&fs[0].payload, Payload::Group(d) if d == &vec![0x08u8, 0x01, 0x53, 0x54, 0x4C]));
    assert_eq!(fs[1].tag, 2);
    assert_eq!(write_fields(&fs), bytes);
}

#[test]
fn an_undeclared_group_is_passed_over() {
    let mut bytes = vec![0x4B, 0x08, 0x01, 0x12, 0x02, 0xFF, 0xFF, 0x4C];
    bytes.extend_from_slice(&encode(&Timestamp { seconds: 3, nanos: 4 }));
    assert_eq!(decode::<Timestamp>(&bytes), Ok(Timestamp { seconds: 3, nanos: 4 }));
    assert_eq!(ours(&bytes), theirs(&bytes));
    // the fields inside a group are not those of the message
    let bytes = vec![0x08, 0x03, 0x4B, 0x08, 0x09, 0x4C];
    assert_eq!(decode::<Timestamp>(&bytes), Ok(Timestamp { seconds: 3, nanos: 0 }));
    assert_eq!(ours(&bytes), theirs(&bytes));
}

#[test]
fn a_malformed_group_is_a_decode_error() {
    let inputs: Vec<Vec<u8>> = vec![
        vec![0x4B],
        vec![0x4B, 0x08, 0x01],
        vec![0x4B, 0x54],
        vec![0x4B, 0x53, 0x4C, 0x54],
        vec![0x4B, 0x08, 0x4C],
        vec![0x4B, 0x12, 0x05, 0x01, 0x4C],
        vec![0x4C],
        vec![0x4B, 0x00, 0x4C],
        vec![0x4B, 0x0E, 0x4C],
    ];
    for b in inputs {
        assert_eq!(decode::<Timestamp>(&b), Err(DecodeError {}));
        assert_eq!(ours(&b), theirs(&b));
    }
}

#[test]
fn a_group_under_a_declared_tag_is_a_decode_error() {
    assert_eq!(decode::<Wasm>(&[0x0B, 0x0C]), Err(DecodeError {}));
    assert_eq!(decode::<Timestamp>(&[0x0B, 0x0C]), Err(DecodeError {}));
    assert_eq!(ours(&[0x0B, 0x0C]), theirs(&[0x0B, 0x0C]));
}

#[test]
fn groups_are_followed_a_hundred_deep() {
    for depth in vec![1usize, 2, 50, 99, 100] {
        let b = nested(depth);
        assert_eq!(ours(&b), Some((7, 0)));
        assert_eq!(ours(&b), theirs(&b));
    }
    for depth in vec![101usize, 102, 500] {
        let b = nested(depth);
        assert_eq!(ours(&b), None);
        assert_eq!(ours(&b), theirs(&b));
    }
}

#[test]
fn the_deepest_group_holds_no_field() {
    // a hundred groups, the innermost with one field in it
    let mut b: Vec<u8> = Vec::new();
    for _ in 0..100 {
        b.push(0x4B);
    }
    b.extend_from_slice(&[0x08, 0x01]);
    for _ in 0..100 {
        b.push(0x4C);
    }
    assert_eq!(ours(&b), None);
    assert_eq!(ours(&b), theirs(&b));
    let mut b: Vec<u8> = Vec::new();
    for _ in 0..99 {
        b.push(0x4B);
    }
    b.extend_from_slice(&[0x08, 0x01]);
    for _ in 0..99 {
        b.push(0x4C);
    }
    assert_eq!(ours(&b), Some((0, 0)));
    assert_eq!(ours(&b), theirs(&b));
}

#[test]
fn many_fields_in_a_group() {
    let mut b: Vec<u8> = vec![0x4B];
    for _ in 0..200_000 {
        b.extend_from_slice(&[0x08, 0x01]);
    }
    b.push(0x4C);
    b.extend_from_slice(&[0x10, 0x05]);
    assert_eq!(ours(&b), Some((0, 5)));
}

#[test]
fn decoding_agrees_with_prost_on_assorted_bytes() {
    let inputs: Vec<Vec<u8>> = vec![
        vec![],
        vec![0x08, 0x01],
        vec![0x08, 0x80, 0x00],
        vec![0x08, 0xFF, 0xFF, 0xFF, 0xFF, 0xFF, 0xFF, 0xFF, 0xFF, 0xFF, 0x01],
        vec![0x08, 0xFF, 0xFF, 0xFF, 0xFF, 0xFF, 0xFF, 0xFF, 0xFF, 0xFF, 0x02],
        vec![0x10, 0xFF, 0xFF, 0xFF, 0xFF, 0x0F],
        vec![0x10, 0x80, 0x80, 0x80, 0x80, 0x10],
        vec![0x10, 0xFF, 0xFF, 0xFF, 0xFF, 0xFF, 0xFF, 0xFF, 0xFF, 0xFF, 0x01],
        vec![0x08, 0x01, 0x08, 0x02],
        vec![0x0A, 0x00],
        vec![0x0D, 1, 2, 3, 4],
        vec![0x11, 1, 2, 3, 4, 5, 6, 7, 8],
        vec![0x1A, 0x02, 0x08, 0x01],
        vec![0x1D, 1, 2, 3, 4],
        vec![0x1D, 1, 2, 3],
        vec![0x19, 1, 2, 3, 4, 5, 6, 7, 8],
        vec![0x19, 1, 2, 3, 4, 5, 6, 7],
        vec![0x00],
        vec![0x07],
        vec![0x80, 0x80, 0x80, 0x80, 0x10, 0x00],
        vec![0xF8, 0xFF, 0xFF, 0xFF, 0x0F, 0x01],
        vec![0x88, 0x80, 0x80, 0x80, 0x80, 0x00, 0x01],
        vec![0x1A, 0xFF, 0xFF, 0xFF, 0xFF, 0xFF, 0xFF, 0xFF, 0xFF, 0xFF, 0x01],
    ];
    for b in inputs {
        assert_eq!(ours(&b), theirs(&b));
    }
}

fn wrapped(tag_byte: u8, inner: &[u8]) -> Vec<u8> {
    let mut b = vec![tag_byte];
    wasm_storage::wire::write_varint(inner.len() as u64, &mut b);
    b.extend_from_slice(inner);
    b
}

fn groups_only(depth: usize) -> Vec<u8> {
    nested(depth)[2..].to_vec()
}

#[test]
fn a_message_inside_takes_one_from_the_limit() {
    for depth in vec![1usize, 98, 99, 100, 101] {
        // field 4 of an artifact holds a point in time
        let ours_ok = decode::<Wasm>(&wrapped(0x22, &groups_only(depth))).is_ok();
        assert_eq!(ours_ok, depth <= 99);
        // field 5 of prost's Api holds a message too
        let theirs_ok = prost_types::Api::decode(&wrapped(0x2A, &groups_only(depth))[..]).is_ok();
        assert_eq!(ours_ok, theirs_ok);
    }
}

#[test]
fn two_messages_inside_take_two_from_the_limit() {
    for depth in vec![1usize, 97, 98, 99, 100] {
        let time = wrapped(0x22, &groups_only(depth));
        let reply = wrapped(0x0A, &time);
        let r = decode::<QueryDataRequestWasmResponse>(&reply);
        assert_eq!(r.is_ok(), depth <= 98);
        if depth <= 98 {
            let w = r.unwrap().wasm.unwrap();
            assert_eq!(w.added_at, Some(Timestamp { seconds: 0, nanos: 0 }));
        }
    }
}

#[test]
fn at_the_limit_only_declared_fields_are_merged() {
    let t = Timestamp { seconds: 1, nanos: 2 };
    assert_eq!(merge_within(t, &[0x08, 0x05], 0), Ok(Timestamp { seconds: 5, nanos: 2 }));
    assert_eq!(merge_within(t, &[0x48, 0x05], 0), Err(DecodeError {}));
    assert_eq!(merge_within(t, &[0x48, 0x05], 1), Ok(t));
    let w = Wasm { hash: vec![], bytecode: vec![], wasm_type: 0, added_at: None };
    assert_eq!(merge_within(w.clone(), &[0x22, 0x00], 0), Err(DecodeError {}));
    let merged = merge_within(w, &[0x22, 0x00], 1).unwrap();
    assert_eq!(merged.added_at, Some(Timestamp { seconds: 0, nanos: 0 }));
}
