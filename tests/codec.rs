use image_browser::codec::{decode_embedding, encode_embedding};

#[test]
fn encoding_is_little_endian_float_bits() {
    let words = vec![1.0f32.to_bits(), 0x0102_0304];
    assert_eq!(encode_embedding(&words), vec![0x00, 0x00, 0x80, 0x3f, 0x04, 0x03, 0x02, 0x01]);
}

#[test]
fn decode_round_trips() {
    let values = vec![0.25f32, -1.5, f32::MAX, 0.0, -0.0];
    let words: Vec<u32> = values.iter().map(|v| v.to_bits()).collect();
    let bytes = encode_embedding(&words);
    assert_eq!(bytes.len(), 20);
    assert_eq!(decode_embedding(&bytes), Some(words));
}

#[test]
fn decode_refuses_partial_words() {
    assert_eq!(decode_embedding(&vec![1, 2, 3]), None);
    assert_eq!(decode_embedding(&Vec::new()), Some(Vec::new()));
}
