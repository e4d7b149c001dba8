use bytes::Bytes;
use moq::coding::{
    decode_byte_vec, decode_i8, decode_len, decode_string, decode_u8, decode_varint, encode_i8, encode_string,
    encode_varint, DecodeError,
};
use moq::message::{Group, Subscribe, SubscribeOk};

fn encoded(x: u64) -> Vec<u8> {
    let mut w = Vec::new();
    encode_varint(x, &mut w);
    w
}

#[test]
fn varint_widths() {
    assert_eq!(encoded(0), vec![0x00]);
    assert_eq!(encoded(37), vec![0x25]);
    assert_eq!(encoded(63), vec![0x3f]);
    assert_eq!(encoded(64), vec![0x40, 0x40]);
    assert_eq!(encoded(15293), vec![0x7b, 0xbd]);
    assert_eq!(encoded(494878333), vec![0x9d, 0x7f, 0x3e, 0x7d]);
    assert_eq!(encoded(151288809941952652), vec![0xc2, 0x19, 0x7c, 0x5e, 0xff, 0x14, 0xe8, 0x8c]);
    assert_eq!(encoded((1 << 62) - 1), vec![0xff; 8]);
}

#[test]
fn varint_roundtrip() {
    for x in [0u64, 1, 63, 64, 16383, 16384, (1 << 30) - 1, 1 << 30, (1 << 62) - 1] {
        let mut w = encoded(x);
        w.push(0xaa);
        let mut r = Bytes::from(w);
        assert_eq!(decode_varint(&mut r).unwrap(), x);
        assert_eq!(r.as_ref(), &[0xaa]);
    }
}

#[test]
fn varint_non_minimal_encoding_is_read() {
    let mut r = Bytes::from(vec![0x40, 0x25]);
    assert_eq!(decode_varint(&mut r).unwrap(), 37);
    assert!(r.is_empty());
}

#[test]
fn varint_short() {
    let mut r = Bytes::from(vec![0x80, 0x01]);
    assert!(matches!(decode_varint(&mut r), Err(DecodeError::Short)));
    let mut r = Bytes::new();
    assert!(matches!(decode_varint(&mut r), Err(DecodeError::Short)));
}

#[test]
fn priority_byte_roundtrip() {
    for p in [i8::MIN, -1, 0, 1, i8::MAX] {
        let mut w = Vec::new();
        encode_i8(p, &mut w);
        assert_eq!(w.len(), 1);
        let mut r = Bytes::from(w);
        assert_eq!(decode_i8(&mut r).unwrap(), p);
    }
    let mut w = Vec::new();
    encode_i8(0, &mut w);
    assert_eq!(w, vec![128]);
}

#[test]
fn single_byte() {
    let mut r = Bytes::from(vec![7u8, 8]);
    assert_eq!(decode_u8(&mut r).unwrap(), 7);
    assert_eq!(decode_u8(&mut r).unwrap(), 8);
    assert!(matches!(decode_u8(&mut r), Err(DecodeError::Short)));
}

#[test]
fn string_roundtrip() {
    let mut w = Vec::new();
    encode_string("héllo/世界", &mut w);
    assert_eq!(w[0] as usize, "héllo/世界".len());
    let mut r = Bytes::from(w);
    assert_eq!(decode_string(&mut r).unwrap(), "héllo/世界");
    assert!(r.is_empty());
}

#[test]
fn string_invalid_utf8() {
    let mut r = Bytes::from(vec![2u8, 0xff, 0xfe]);
    assert!(matches!(decode_string(&mut r), Err(DecodeError::InvalidString(_))));
}

#[test]
fn string_short() {
    let mut r = Bytes::from(vec![5u8, b'a', b'b']);
    assert!(matches!(decode_string(&mut r), Err(DecodeError::Short)));
}

#[test]
fn byte_vec_and_length() {
    let mut r = Bytes::from(vec![3u8, 1, 2, 3, 9]);
    assert_eq!(decode_byte_vec(&mut r).unwrap(), vec![1, 2, 3]);
    assert_eq!(r.as_ref(), &[9]);
    let mut r = Bytes::from(vec![0x40, 0x05]);
    assert_eq!(decode_len(&mut r).unwrap(), 5);
}

#[test]
fn group_roundtrip() {
    let g = Group { subscribe: 3, sequence: 1_000_000 };
    let mut w = Vec::new();
    g.encode(&mut w);
    assert_eq!(w, vec![0x03, 0x80, 0x0f, 0x42, 0x40]);
    let mut r = Bytes::from(w);
    let back = Group::decode(&mut r).unwrap();
    assert_eq!(back.subscribe, 3);
    assert_eq!(back.sequence, 1_000_000);
}

#[test]
fn subscribe_roundtrip() {
    let s = Subscribe { id: 9, broadcast: "room/alice".to_string(), track: "video".to_string(), priority: -3 };
    let mut w = Vec::new();
    s.encode(&mut w);
    let mut r = Bytes::from(w);
    let back = Subscribe::decode(&mut r).unwrap();
    assert_eq!(back.id, 9);
    assert_eq!(back.broadcast, "room/alice");
    assert_eq!(back.track, "video");
    assert_eq!(back.priority, -3);
    assert!(r.is_empty());
}

#[test]
fn subscribe_ok_roundtrip() {
    let mut w = Vec::new();
    SubscribeOk { priority: 5 }.encode(&mut w);
    assert_eq!(w, vec![133]);
    let mut r = Bytes::from(w);
    assert_eq!(SubscribeOk::decode(&mut r).unwrap().priority, 5);
}
