use nbody::codec::{compress_data, decompress_data};

#[test]
fn compression_round_trip() {
    let payload: Vec<u8> = (0..2000u32).map(|i| (i % 7) as u8).collect();
    let packed = compress_data(&payload).unwrap();
    assert!(packed != payload);
    assert!(packed.len() < payload.len());
    assert_eq!(decompress_data(&packed).unwrap(), payload);
}

#[test]
fn compressed_payload_is_a_gzip_stream() {
    let packed = compress_data(b"hello").unwrap();
    // magic number, deflate, no flags, no time, fast level, unknown system
    assert_eq!(&packed[..10], &[0x1f, 0x8b, 8, 0, 0, 0, 0, 0, 4, 255]);
    assert_eq!(decompress_data(&packed).unwrap(), b"hello");
    assert_eq!(compress_data(b"hello").unwrap(), packed);
}

#[test]
fn empty_payload_round_trip() {
    let packed = compress_data(&[]).unwrap();
    assert!(!packed.is_empty());
    assert_eq!(decompress_data(&packed).unwrap(), Vec::<u8>::new());
}

#[test]
fn decompression_rejects_what_is_no_gzip_stream() {
    assert_eq!(decompress_data(b"not a gzip stream"), None);
    assert_eq!(decompress_data(&[]), None);
    let payload = b"some payload that is long enough to matter";
    let packed = compress_data(payload).unwrap();
    assert_eq!(decompress_data(&packed[..packed.len() - 3]), None);
    let mut damaged = packed.clone();
    let last = damaged.len() - 1;
    damaged[last] ^= 0xff;
    assert_eq!(decompress_data(&damaged), None);
}

#[test]
fn serialization_test() {
    // ten bodies in the binary encoding of the wire: position, velocity,
    // mass, radius and color, behind the number of the message kind
    let bodies = vec![([0.0f64; 2], [0.0f64; 2], 1.0f64, 1.0f64, [255u8; 4]); 10];
    let encoded = bincode::serialize(&(1u32, bodies.clone())).unwrap();
    assert_eq!(encoded.len(), 4 + 8 + 10 * (16 + 16 + 8 + 8 + 4));
    let serialized = compress_data(&encoded).unwrap();
    let decoded = decompress_data(&serialized).unwrap();
    assert_eq!(decoded, encoded);
    let deserialized: (u32, Vec<([f64; 2], [f64; 2], f64, f64, [u8; 4])>) =
        bincode::deserialize(&decoded).unwrap();
    assert_eq!(deserialized.0, 1);
    assert!(deserialized.1.len() == 10);
    assert_eq!(deserialized.1, bodies);
}
