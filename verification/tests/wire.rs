//! Elements carried over MessagePack, as the `Vec<u32>` that they are.
use compact_vec::CompactVec;
use rmp_serde::{decode, encode};

#[test]
fn test_messagepack_roundtrip_basic() {
    let mut cv = CompactVec::new();
    cv.push(10);
    cv.push(500);
    cv.push(100_000);

    let buf = encode::to_vec(&cv.to_vec()).expect("Encoding failed");
    let values: Vec<u32> = decode::from_slice(&buf).expect("Decoding failed");
    let decoded = CompactVec::from(values);

    assert_eq!(decoded.len(), 3);
    assert_eq!(decoded.get(0), Some(10));
    assert_eq!(decoded.get(1), Some(500));
    assert_eq!(decoded.get(2), Some(100_000));
    assert_eq!(decoded.width_bits(), 24);
}

#[test]
fn test_messagepack_compatibility_with_vec() {
    let mut cv = CompactVec::new();
    cv.push(1);
    cv.push(2);
    cv.push(3);

    let cv_bytes = encode::to_vec(&cv.to_vec()).expect("Encoding failed");
    let v: Vec<u32> = decode::from_slice(&cv_bytes).expect("Decoding into Vec failed");
    assert_eq!(v, vec![1, 2, 3]);

    let v_bytes = encode::to_vec(&v).expect("Encoding Vec failed");
    let values: Vec<u32> = decode::from_slice(&v_bytes).expect("Decoding into CV failed");
    let decoded_cv = CompactVec::from(values);
    assert_eq!(decoded_cv.get(0), Some(1));
    assert_eq!(decoded_cv.width_bits(), 8);
}

#[test]
fn test_serialization_empty() {
    let cv = CompactVec::new();
    let buf = encode::to_vec(&cv.to_vec()).expect("Encoding failed");
    let values: Vec<u32> = decode::from_slice(&buf).expect("Decoding failed");
    let decoded = CompactVec::from(values);
    assert!(decoded.is_empty());
}

#[test]
fn test_large_u32_roundtrip() {
    let mut cv = CompactVec::new();
    cv.push(u32::MAX);

    let buf = encode::to_vec(&cv.to_vec()).expect("Encoding failed");
    let values: Vec<u32> = decode::from_slice(&buf).expect("Decoding failed");
    let decoded = CompactVec::from(values);

    assert_eq!(decoded.get(0), Some(u32::MAX));
    assert_eq!(decoded.width_bits(), 32);
}
