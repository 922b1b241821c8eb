use loopback_capture::emit::{emit_chunk, encode_samples_le, make_pcm_event};

#[test]
fn samples_serialize_little_endian() {
    assert_eq!(encode_samples_le(&vec![1]), vec![1, 0, 0, 0]);
    assert_eq!(encode_samples_le(&vec![-1]), vec![255, 255, 255, 255]);
    assert_eq!(encode_samples_le(&vec![0x12345678]), vec![0x78, 0x56, 0x34, 0x12]);
    assert_eq!(
        encode_samples_le(&vec![258, -2]),
        vec![2, 1, 0, 0, 254, 255, 255, 255]
    );
    assert_eq!(encode_samples_le(&Vec::new()), Vec::<u8>::new());
}

#[test]
fn event_encodes_bytes_as_base64() {
    // "Man" is the classic base64 vector: its encoding is "TWFu".
    let e = make_pcm_event(&vec![77, 97, 110], 48000);
    assert_eq!(e.pcm_base64, "TWFu");
    assert_eq!(e.sample_rate, 48000);
    assert_eq!(e.channels, 1);
}

#[test]
fn event_base64_is_padded() {
    let e = make_pcm_event(&vec![77], 44100);
    assert_eq!(e.pcm_base64, "TQ==");
    assert_eq!(e.sample_rate, 44100);
}

#[test]
fn chunk_event_round_trip_values() {
    // One zero sample: four zero bytes, whose padded base64 is "AAAAAA==".
    let e = emit_chunk(&vec![0], 16000);
    assert_eq!(e.pcm_base64, "AAAAAA==");
    assert_eq!(e.sample_rate, 16000);
    assert_eq!(e.channels, 1);
    // The same bytes by hand give the same event payload.
    let by_hand = make_pcm_event(&encode_samples_le(&vec![0]), 16000);
    assert_eq!(by_hand.pcm_base64, e.pcm_base64);
}
