use mobi::compression::{palmdoc_compress, palmdoc_decompress};

#[test]
fn decompress_literal_run() {
    let out = palmdoc_decompress(&[0x05, 0x41, 0x42, 0x43, 0x44, 0x45]);
    assert_eq!(out.as_slice(), b"ABCDE");
}

#[test]
fn decompress_space_letter_pair() {
    let out = palmdoc_decompress(&[0xC1]);
    assert_eq!(out.as_slice(), b" A");
}

#[test]
fn decompress_single_literals() {
    let out = palmdoc_decompress(&[0x00, 0x09, 0x41, 0x7F]);
    assert_eq!(out.as_slice(), &[0x00, 0x09, 0x41, 0x7F]);
}

#[test]
fn decompress_overlapping_backreference_copies_byte_by_byte() {
    // "abc" followed by a backreference of distance 2 and length 4:
    // the copy overlaps the bytes it appends, so the decoded tail
    // repeats "bc" byte by byte.
    let word: u16 = 0x8000 | (2 << 3) | (4 - 3);
    let data = [0x03, b'a', b'b', b'c', (word >> 8) as u8, word as u8];
    let out = palmdoc_decompress(&data);
    assert_eq!(out.as_slice(), b"abcbcbc");
}

#[test]
fn decompress_truncated_run_copies_what_remains() {
    let out = palmdoc_decompress(&[0x05, 0x41, 0x42]);
    assert_eq!(out.as_slice(), b"AB");
}

#[test]
fn decompress_invalid_backreference_returns_accumulated_output() {
    // A backreference reaching behind the start of the output is
    // invalid: the scan stops and returns what was accumulated so far.
    let out = palmdoc_decompress(&[0x41, 0x80, 0x10]);
    assert_eq!(out.as_slice(), b"A");
    // So is a distance of zero.
    let out = palmdoc_decompress(&[0x41, 0x80, 0x00]);
    assert_eq!(out.as_slice(), b"A");
}

#[test]
fn decompress_truncated_backreference_returns_accumulated_output() {
    let out = palmdoc_decompress(&[0x41, 0x42, 0x90]);
    assert_eq!(out.as_slice(), b"AB");
}

#[test]
fn compress_round_trip_empty() {
    let data: Vec<u8> = Vec::new();
    assert_eq!(palmdoc_decompress(palmdoc_compress(&data).as_slice()), data);
}

#[test]
fn compress_round_trip_single_bytes() {
    for b in [0u8, 1, 8, 9, 32, 127, 128, 191, 192, 255] {
        let data = vec![b];
        assert_eq!(palmdoc_decompress(palmdoc_compress(&data).as_slice()), data);
    }
}

#[test]
fn compress_round_trip_repeated_runs() {
    let mut data = Vec::new();
    for _ in 0..300 {
        data.push(b'a');
    }
    let compressed = palmdoc_compress(&data);
    assert!(compressed.len() < data.len());
    assert_eq!(palmdoc_decompress(compressed.as_slice()), data);
}

#[test]
fn compress_round_trip_text_with_spaces() {
    let data = b"the quick brown fox jumps over the lazy dog".to_vec();
    let compressed = palmdoc_compress(&data);
    assert_eq!(palmdoc_decompress(compressed.as_slice()), data);
}

#[test]
fn compress_round_trip_all_byte_values() {
    let mut data = Vec::new();
    for i in 0..=255u8 {
        data.push(i);
        data.push(i);
    }
    assert_eq!(palmdoc_decompress(palmdoc_compress(&data).as_slice()), data);
}

#[test]
fn compress_output_is_at_most_twice_the_input() {
    let mut data = Vec::new();
    for i in 0..1000u32 {
        data.push((i * 31 % 251) as u8);
    }
    let compressed = palmdoc_compress(&data);
    assert!(compressed.len() <= 2 * data.len());
    assert_eq!(palmdoc_decompress(compressed.as_slice()), data);
}
