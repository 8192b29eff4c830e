use pizza_factory::cbor::codec::{decode_cbor, encode_cbor, is_encodable};
use pizza_factory::cbor::CborValue;
use pizza_factory::wire::framing::{frame_item, item_of_body, read_frame_item};
use pizza_factory::wire::framing::{decode_frame, encode_frame, frame_body_len, FrameError, MAX_FRAME};
use pizza_factory::wire::{map_get, message_key};

fn t(s: &str) -> CborValue {
    CborValue::Text(s.to_string())
}

#[test]
fn frame_is_length_then_body() {
    let f = encode_frame(&[1, 2, 3]).unwrap();
    assert_eq!(f, vec![0, 0, 0, 3, 1, 2, 3]);
    let big = vec![7u8; 300];
    let f = encode_frame(&big).unwrap();
    assert_eq!(&f[..4], &[0, 0, 1, 44]);
    assert_eq!(f.len(), 304);
}

#[test]
fn frame_read_back_with_trailing_bytes() {
    let mut f = encode_frame(b"hello").unwrap();
    f.extend_from_slice(&[9, 9]);
    let (body, used) = decode_frame(&f).unwrap();
    assert_eq!(body, b"hello".to_vec());
    assert_eq!(used, 9);
}

#[test]
fn frame_header_limits() {
    assert_eq!(frame_body_len([0, 0, 0, 5]), Ok(5));
    assert_eq!(frame_body_len([1, 0, 0, 0]), Ok(MAX_FRAME));
    assert_eq!(frame_body_len([1, 0, 0, 1]), Err(FrameError::FrameTooLarge(16777217)));
    assert_eq!(decode_frame(&[0, 0]), Err(FrameError::Truncated));
    assert_eq!(decode_frame(&[0, 0, 0, 4, 1, 2]), Err(FrameError::Truncated));
    assert_eq!(decode_frame(&[0xff, 0, 0, 0]), Err(FrameError::FrameTooLarge(0xff000000)));
}

#[test]
fn message_key_is_first_text_key() {
    let m = CborValue::Mapping(vec![(t("order"), CborValue::Null), (t("other"), CborValue::Null)]);
    assert_eq!(message_key(&m), Some("order"));
    let not_text = CborValue::Mapping(vec![(CborValue::Integer(1), CborValue::Null)]);
    assert_eq!(message_key(&not_text), None);
    assert_eq!(message_key(&CborValue::Mapping(vec![])), None);
    assert_eq!(message_key(&t("order")), None);
}

#[test]
fn map_get_finds_first_entry() {
    let m = vec![
        (t("a"), CborValue::Integer(1)),
        (t("b"), CborValue::Integer(2)),
        (t("a"), CborValue::Integer(3)),
    ];
    assert_eq!(map_get(&m, "a"), Some(&CborValue::Integer(1)));
    assert_eq!(map_get(&m, "b"), Some(&CborValue::Integer(2)));
    assert_eq!(map_get(&m, "c"), None);
}

#[test]
fn cbor_bytes_of_small_items() {
    let v = CborValue::Mapping(vec![(t("a"), CborValue::Integer(1))]);
    assert_eq!(encode_cbor(&v), Some(vec![0xa1, 0x61, b'a', 0x01]));
    assert_eq!(decode_cbor(&[0xa1, 0x61, b'a', 0x01]), Ok(v));
    assert!(decode_cbor(&[0x61]).is_err());
    assert_eq!(encode_cbor(&CborValue::Integer(-(1i128 << 64) - 1)), None);
    assert!(is_encodable(&CborValue::Integer(-(1i128 << 64))));
    assert!(is_encodable(&CborValue::Array(vec![CborValue::Float(0)])));
    assert!(!is_encodable(&CborValue::Array(vec![CborValue::Integer(1i128 << 64)])));
    let f = CborValue::Float(0x3ff8_0000_0000_0000);
    let b = encode_cbor(&f).unwrap();
    assert_eq!(b, vec![0xf9, 0x3e, 0x00]);
    assert_eq!(decode_cbor(&b), Ok(f));
    let g = CborValue::Float(1);
    let b = encode_cbor(&g).unwrap();
    assert_eq!(b, vec![0xfb, 0, 0, 0, 0, 0, 0, 0, 1]);
    assert_eq!(decode_cbor(&b), Ok(g));
}

#[test]
fn item_frames_read_back() {
    let v = CborValue::Array(vec![t("x"), CborValue::Bool(true)]);
    let mut f = frame_item(&v).unwrap();
    assert_eq!(f, vec![0, 0, 0, 4, 0x82, 0x61, b'x', 0xf5]);
    f.push(0);
    assert_eq!(read_frame_item(&f), Ok((v, 8)));
    assert_eq!(item_of_body(&[0x61]), Err(FrameError::NotCbor));
    assert_eq!(frame_item(&CborValue::Integer(-(1i128 << 64) - 1)), Err(FrameError::NotEncodable));
    assert_eq!(read_frame_item(&[0, 0, 0, 1, 0x61]), Err(FrameError::NotCbor));
}
