use wasm_storage::wire::{
    read_fields, read_varint, write_field, write_fields, write_varint, Field, Payload,
    RECURSION_LIMIT,
};

fn varint(v: u64) -> Vec<u8> {
    let mut out = Vec::new();
    write_varint(v, &mut out);
    out
}

#[test]
fn varint_exact_bytes() {
    assert_eq!(varint(0), vec![0x00]);
    assert_eq!(varint(1), vec![0x01]);
    assert_eq!(varint(127), vec![0x7F]);
    assert_eq!(varint(128), vec![0x80, 0x01]);
    assert_eq!(varint(300), vec![0xAC, 0x02]);
    assert_eq!(varint(16384), vec![0x80, 0x80, 0x01]);
    assert_eq!(
        varint(u64::MAX),
        vec![0xFF, 0xFF, 0xFF, 0xFF, 0xFF, 0xFF, 0xFF, 0xFF, 0xFF, 0x01]
    );
}

#[test]
fn varint_appends_to_what_is_there() {
    let mut out = vec![9u8, 8];
    write_varint(300, &mut out);
    assert_eq!(out, vec![9, 8, 0xAC, 0x02]);
}

#[test]
fn varint_is_read_back() {
    let values: Vec<u64> = vec![0, 1, 127, 128, 300, 16383, 16384, 1 << 32, (1 << 63) - 1, 1 << 63, u64::MAX];
    for v in values {
        let mut b = varint(v);
        let n = b.len();
        b.push(0x55);
        assert_eq!(read_varint(&b), Some((v, n)));
    }
}

#[test]
fn varint_agrees_with_prost() {
    let values: Vec<u64> = vec![0, 1, 127, 128, 300, 1 << 21, 1 << 35, 1 << 63, u64::MAX];
    for v in values {
        let mut theirs: Vec<u8> = Vec::new();
        prost::encoding::encode_varint(v, &mut theirs);
        assert_eq!(varint(v), theirs);
        let mut slice: &[u8] = &theirs;
        assert_eq!(prost::encoding::decode_varint(&mut slice).ok(), Some(v));
        assert_eq!(read_varint(&theirs), Some((v, theirs.len())));
    }
}

#[test]
fn varint_cut_short_or_too_long_is_refused() {
    assert_eq!(read_varint(&[]), None);
    assert_eq!(read_varint(&[0x80]), None);
    assert_eq!(read_varint(&[0xFF, 0xFF]), None);
    // ten bytes whose last holds more than one bit
    assert_eq!(read_varint(&[0xFF, 0xFF, 0xFF, 0xFF, 0xFF, 0xFF, 0xFF, 0xFF, 0xFF, 0x02]), None);
    // eleven bytes
    assert_eq!(
        read_varint(&[0x80, 0x80, 0x80, 0x80, 0x80, 0x80, 0x80, 0x80, 0x80, 0x80, 0x01]),
        None
    );
}

#[test]
fn padded_varint_is_read() {
    assert_eq!(read_varint(&[0x80, 0x00]), Some((0, 2)));
    assert_eq!(read_varint(&[0x81, 0x80, 0x00]), Some((1, 3)));
}

#[test]
fn refusals_agree_with_prost() {
    let inputs: Vec<Vec<u8>> = vec![
        vec![],
        vec![0x80],
        vec![0xFF, 0xFF, 0xFF, 0xFF, 0xFF, 0xFF, 0xFF, 0xFF, 0xFF, 0x02],
        vec![0x80, 0x80, 0x80, 0x80, 0x80, 0x80, 0x80, 0x80, 0x80, 0x80, 0x01],
        vec![0x80, 0x00],
        vec![0xFF, 0xFF, 0xFF, 0xFF, 0xFF, 0xFF, 0xFF, 0xFF, 0xFF, 0x01],
    ];
    for b in inputs {
        let mut slice: &[u8] = &b;
        let theirs = prost::encoding::decode_varint(&mut slice).ok();
        assert_eq!(read_varint(&b).map(|r| r.0), theirs);
    }
}

#[test]
fn field_exact_bytes() {
    let mut out = Vec::new();
    write_field(&Field { tag: 1, payload: Payload::Varint(150) }, &mut out);
    assert_eq!(out, vec![0x08, 0x96, 0x01]);
    let mut out = Vec::new();
    write_field(&Field { tag: 2, payload: Payload::Bytes(vec![0x74, 0x65]) }, &mut out);
    assert_eq!(out, vec![0x12, 0x02, 0x74, 0x65]);
    let mut out = Vec::new();
    write_field(&Field { tag: 3, payload: Payload::Fixed32(vec![1, 2, 3, 4]) }, &mut out);
    assert_eq!(out, vec![0x1D, 1, 2, 3, 4]);
    let mut out = Vec::new();
    write_field(&Field { tag: 16, payload: Payload::Fixed64(vec![1, 2, 3, 4, 5, 6, 7, 8]) }, &mut out);
    assert_eq!(out, vec![0x81, 0x01, 1, 2, 3, 4, 5, 6, 7, 8]);
}

#[test]
fn fields_are_read_back() {
    let fs = vec![
        Field { tag: 1, payload: Payload::Varint(150) },
        Field { tag: 2, payload: Payload::Bytes(vec![0x74, 0x65]) },
        Field { tag: 3, payload: Payload::Fixed32(vec![1, 2, 3, 4]) },
        Field { tag: 536870911, payload: Payload::Fixed64(vec![1, 2, 3, 4, 5, 6, 7, 8]) },
        Field { tag: 5, payload: Payload::Bytes(vec![]) },
    ];
    let bytes = write_fields(&fs);
    let back = read_fields(&bytes, RECURSION_LIMIT).unwrap();
    assert_eq!(back.len(), 5);
    assert_eq!(back[0].tag, 1);
    assert!(matches!(back[0].payload, Payload::Varint(150)));
    assert_eq!(back[1].tag, 2);
    assert!(matches!(&back[1].payload, Payload::Bytes(d) if d == &vec![0x74u8, 0x65]));
    assert!(matches!(&back[2].payload, Payload::Fixed32(d) if d == &vec![1u8, 2, 3, 4]));
    assert_eq!(back[3].tag, 536870911);
    assert!(matches!(&back[3].payload, Payload::Fixed64(d) if d.len() == 8 && d[7] == 8));
    assert!(matches!(&back[4].payload, Payload::Bytes(d) if d.is_empty()));
}

#[test]
fn no_bytes_hold_no_fields() {
    assert_eq!(read_fields(&[], RECURSION_LIMIT).unwrap().len(), 0);
    assert_eq!(write_fields(&Vec::new()), Vec::<u8>::new());
}

#[test]
fn malformed_fields_are_refused() {
    // tag 0
    assert!(read_fields(&[0x00, 0x01], RECURSION_LIMIT).is_none());
    // payload numbers that do not exist
    assert!(read_fields(&[0x0E, 0x01], RECURSION_LIMIT).is_none());
    assert!(read_fields(&[0x0F, 0x01], RECURSION_LIMIT).is_none());
    // a closing key without a group
    assert!(read_fields(&[0x0C], RECURSION_LIMIT).is_none());
    // a key over 32 bits
    assert!(read_fields(&[0x88, 0x80, 0x80, 0x80, 0x10, 0x01], RECURSION_LIMIT).is_none());
    // payloads cut short
    assert!(read_fields(&[0x08], RECURSION_LIMIT).is_none());
    assert!(read_fields(&[0x12, 0x03, 0x01, 0x02], RECURSION_LIMIT).is_none());
    assert!(read_fields(&[0x1D, 1, 2, 3], RECURSION_LIMIT).is_none());
    assert!(read_fields(&[0x09, 1, 2, 3, 4, 5, 6, 7], RECURSION_LIMIT).is_none());
    // a length that is far over what is there
    assert!(read_fields(&[0x12, 0xFF, 0xFF, 0xFF, 0xFF, 0xFF, 0xFF, 0xFF, 0xFF, 0xFF, 0x01], RECURSION_LIMIT).is_none());
}
