use pklib::{explode_bytes, implode_bytes, CompressionMode, DictionarySize, PkLibError};

const MODES: [CompressionMode; 2] = [CompressionMode::Binary, CompressionMode::ASCII];
const SIZES: [DictionarySize; 3] = [
    DictionarySize::Size1K,
    DictionarySize::Size2K,
    DictionarySize::Size4K,
];

fn pseudo_random(count: usize, values: u32) -> Vec<u8> {
    let mut out = Vec::with_capacity(count);
    let mut x: u32 = 12345;
    for _ in 0..count {
        x = x.wrapping_mul(1103515245).wrapping_add(12345) & 0x7fff_ffff;
        out.push(((x >> 16) % values) as u8);
    }
    out
}

fn assert_round_trip(data: &[u8]) {
    for mode in MODES {
        for size in SIZES {
            let stream = implode_bytes(data, mode, size).unwrap();
            assert_eq!(stream[0], mode.to_u8());
            assert_eq!(stream[1], size.bits());
            assert_eq!(explode_bytes(&stream).unwrap(), data);
        }
    }
}

#[test]
fn explodes_a_known_stream() {
    let stream = [0x00, 0x04, 0x82, 0x24, 0x25, 0x8f, 0x80, 0x7f];
    assert_eq!(explode_bytes(&stream).unwrap(), b"AIAIAIAIAIAIA".to_vec());
}

#[test]
fn empty_input_is_header_and_end_marker() {
    let stream = implode_bytes(b"", CompressionMode::Binary, DictionarySize::Size2K).unwrap();
    assert_eq!(stream, vec![0x00, 0x05, 0x01, 0xff]);
    assert_eq!(explode_bytes(&stream).unwrap(), Vec::<u8>::new());
    let stream = implode_bytes(b"", CompressionMode::ASCII, DictionarySize::Size4K).unwrap();
    assert_eq!(stream, vec![0x01, 0x06, 0x01, 0xff]);
    assert_eq!(explode_bytes(&stream).unwrap(), Vec::<u8>::new());
}

#[test]
fn hello_world_ascii_has_its_exact_stream() {
    let stream =
        implode_bytes(b"Hello, World!", CompressionMode::ASCII, DictionarySize::Size2K).unwrap();
    assert_eq!(&stream[..2], &[0x01, 0x05]);
    assert_eq!(
        stream,
        vec![
            0x01, 0x05, 0x50, 0x6c, 0xd3, 0xd4, 0xf1, 0x3d, 0x64, 0x5d, 0x33, 0xe9, 0xa0, 0x0c,
            0xf8, 0x07
        ]
    );
    assert_eq!(explode_bytes(&stream).unwrap(), b"Hello, World!".to_vec());
}

#[test]
fn hello_world_binary_has_its_exact_stream() {
    let stream =
        implode_bytes(b"Hello, World!", CompressionMode::Binary, DictionarySize::Size1K).unwrap();
    assert_eq!(stream.len(), 19);
    assert_eq!(
        &stream[..12],
        &[0x00, 0x04, 0x90, 0x94, 0x61, 0xc3, 0xe6, 0x0d, 0x0b, 0x10, 0x57, 0xde]
    );
    assert_eq!(explode_bytes(&stream).unwrap(), b"Hello, World!".to_vec());
}

#[test]
fn six_hundred_times_abc_compresses_to_twenty_bytes() {
    let mut data = Vec::new();
    for _ in 0..600 {
        data.extend_from_slice(b"ABC");
    }
    assert_eq!(data.len(), 1800);
    let stream = implode_bytes(&data, CompressionMode::Binary, DictionarySize::Size4K).unwrap();
    assert!(stream.len() <= 200);
    assert_eq!(
        stream,
        vec![
            0x00, 0x06, 0x82, 0x08, 0x19, 0x0a, 0xe0, 0x5f, 0x08, 0xe0, 0x5f, 0x08, 0xe0, 0x5f,
            0x08, 0x8c, 0x2f, 0x04, 0xfc, 0x03
        ]
    );
    assert_eq!(explode_bytes(&stream).unwrap(), data);
}

#[test]
fn uniform_run_is_a_literal_and_one_repetition() {
    let data = vec![b'A'; 516];
    let stream = implode_bytes(&data, CompressionMode::Binary, DictionarySize::Size2K).unwrap();
    assert_eq!(stream, vec![0x00, 0x05, 0x82, 0x02, 0xf6, 0x07, 0x01, 0xff]);
    assert_eq!(explode_bytes(&stream).unwrap(), data);
    let stream = implode_bytes(&data, CompressionMode::ASCII, DictionarySize::Size1K).unwrap();
    assert_eq!(stream, vec![0x01, 0x04, 0xe2, 0x80, 0xfd, 0x21, 0xe0, 0x1f]);
    assert_eq!(explode_bytes(&stream).unwrap(), data);
    assert_round_trip(&data);
}

#[test]
fn longest_repetition_has_516_bytes() {
    let data = vec![b'A'; 517];
    let stream = implode_bytes(&data, CompressionMode::Binary, DictionarySize::Size4K).unwrap();
    assert_eq!(
        stream,
        vec![0x00, 0x06, 0x82, 0x02, 0xf8, 0x07, 0x02, 0xfe, 0x01]
    );
    assert_eq!(explode_bytes(&stream).unwrap(), data);
    let data = vec![b'A'; 1200];
    assert_round_trip(&data);
}

#[test]
fn every_byte_once_is_stored_as_literals() {
    let data: Vec<u8> = (0..=255).collect();
    let stream = implode_bytes(&data, CompressionMode::Binary, DictionarySize::Size1K).unwrap();
    assert_eq!(stream.len(), 292);
    assert_eq!(&stream[..8], &[0x00, 0x04, 0x00, 0x04, 0x10, 0x30, 0x80, 0x40]);
    assert_eq!(&stream[288..], &[0x7f, 0xff, 0x01, 0xff]);
    assert_eq!(explode_bytes(&stream).unwrap(), data);
    assert_round_trip(&data);
}

#[test]
fn round_trip_of_short_inputs() {
    assert_round_trip(b"");
    assert_round_trip(b"X");
    assert_round_trip(b"Hi");
    assert_round_trip(b"abc");
    assert_round_trip(b"aaa");
    assert_round_trip(b"abab");
    assert_round_trip(&[0, 0]);
    assert_round_trip(&[255, 255, 255]);
}

#[test]
fn round_trip_of_alternating_bytes() {
    let data: Vec<u8> = (0..3000)
        .map(|i| if i % 2 == 0 { 0xAA } else { 0x55 })
        .collect();
    assert_round_trip(&data);
}

#[test]
fn round_trip_at_the_block_boundary() {
    assert_round_trip(&pseudo_random(4095, 3));
    assert_round_trip(&pseudo_random(4096, 3));
    assert_round_trip(&pseudo_random(4097, 3));
    assert_round_trip(&vec![7u8; 4096]);
    assert_round_trip(&vec![7u8; 4097]);
}

#[test]
fn round_trip_of_long_inputs() {
    assert_round_trip(&pseudo_random(20000, 4));
    assert_round_trip(&pseudo_random(10000, 256));
    assert_round_trip(&pseudo_random(9000, 2));
    assert_round_trip(&vec![0u8; 70000]);
}

fn digest(stream: &[u8]) -> (usize, u32, Vec<u8>) {
    let sum = stream.iter().map(|&b| b as u32).sum::<u32>() % 65536;
    (stream.len(), sum, stream[stream.len() - 3..].to_vec())
}

#[test]
fn long_inputs_have_their_exact_streams() {
    let data = pseudo_random(20000, 4);
    let stream = implode_bytes(&data, CompressionMode::Binary, DictionarySize::Size1K).unwrap();
    assert_eq!(digest(&stream), (7372, 31638, vec![0x10, 0xf0, 0x0f]));
    let stream = implode_bytes(&data, CompressionMode::ASCII, DictionarySize::Size2K).unwrap();
    assert_eq!(digest(&stream), (7273, 26563, vec![0x04, 0xfc, 0x03]));
    let stream = implode_bytes(&data, CompressionMode::Binary, DictionarySize::Size4K).unwrap();
    assert_eq!(digest(&stream), (7204, 15962, vec![0xc7, 0x80, 0x7f]));

    let data = pseudo_random(10000, 256);
    let stream = implode_bytes(&data, CompressionMode::Binary, DictionarySize::Size1K).unwrap();
    assert_eq!(digest(&stream), (11234, 38107, vec![0x03, 0xfe, 0x01]));
    let stream = implode_bytes(&data, CompressionMode::ASCII, DictionarySize::Size2K).unwrap();
    assert_eq!(digest(&stream), (14575, 62267, vec![0xca, 0x01, 0xff]));

    let data = pseudo_random(4097, 3);
    let stream = implode_bytes(&data, CompressionMode::Binary, DictionarySize::Size4K).unwrap();
    assert_eq!(digest(&stream), (1263, 36647, vec![0x3b, 0xe0, 0x1f]));
}

#[test]
fn compression_is_deterministic() {
    let data = pseudo_random(5000, 7);
    for mode in MODES {
        for size in SIZES {
            let first = implode_bytes(&data, mode, size).unwrap();
            let second = implode_bytes(&data, mode, size).unwrap();
            assert_eq!(first, second);
        }
    }
}

#[test]
fn repetition_at_distance_one_repeats_the_literal() {
    let stream = [0x00, 0x04, 0xb0, 0x12, 0x43, 0xc0, 0x3f];
    assert_eq!(explode_bytes(&stream).unwrap(), vec![0x58; 11]);
    let stream = [0x01, 0x06, 0x3e, 0x80, 0x7f, 0x20, 0xe0, 0x1f];
    assert_eq!(explode_bytes(&stream).unwrap(), vec![0x20; 517]);
    let stream = [0x00, 0x05, 0x00, 0x76, 0x02, 0xfe, 0x01];
    assert_eq!(explode_bytes(&stream).unwrap(), vec![0x00; 3]);
}

#[test]
fn nearest_of_the_longest_repetitions_is_taken() {
    let stream = implode_bytes(b"AACAAAD", CompressionMode::Binary, DictionarySize::Size2K).unwrap();
    assert_eq!(
        stream,
        vec![0x00, 0x05, 0x82, 0x04, 0x19, 0xda, 0x15, 0x84, 0x28, 0xe0, 0x1f]
    );
}

#[test]
fn far_repetition_of_two_bytes_is_not_used() {
    let mut data = b"XY".to_vec();
    data.extend((0..300u32).map(|i| ((i * 7 + 3) % 251) as u8));
    data.extend_from_slice(b"XY");
    let stream = implode_bytes(&data, CompressionMode::Binary, DictionarySize::Size2K).unwrap();
    assert_eq!(stream.len(), 294);
    assert_eq!(explode_bytes(&stream).unwrap(), data);

    let mut data = b"XY".to_vec();
    data.extend((0..200u32).map(|i| ((i * 7 + 3) % 251) as u8));
    data.extend_from_slice(b"XY");
    let stream = implode_bytes(&data, CompressionMode::Binary, DictionarySize::Size2K).unwrap();
    assert_eq!(stream.len(), 233);
    assert_eq!(explode_bytes(&stream).unwrap(), data);
}

#[test]
fn header_bytes_are_rejected() {
    assert!(matches!(
        explode_bytes(&[2, 4, 0, 0]),
        Err(PkLibError::InvalidCompressionMode(2))
    ));
    assert!(matches!(
        explode_bytes(&[2]),
        Err(PkLibError::InvalidCompressionMode(2))
    ));
    assert!(matches!(
        explode_bytes(&[255, 3]),
        Err(PkLibError::InvalidCompressionMode(255))
    ));
    assert!(matches!(
        explode_bytes(&[0, 3, 0, 0]),
        Err(PkLibError::InvalidDictionaryBits(3))
    ));
    assert!(matches!(
        explode_bytes(&[1, 7]),
        Err(PkLibError::InvalidDictionaryBits(7))
    ));
    assert!(matches!(explode_bytes(&[0, 4]), Err(PkLibError::UnexpectedEof)));
    assert!(matches!(explode_bytes(&[1]), Err(PkLibError::UnexpectedEof)));
    assert!(matches!(explode_bytes(&[]), Err(PkLibError::UnexpectedEof)));
}

#[test]
fn stream_without_end_marker_is_rejected() {
    let stream =
        implode_bytes(b"Hello, World!", CompressionMode::Binary, DictionarySize::Size2K).unwrap();
    for cut in 3..stream.len() {
        assert!(matches!(
            explode_bytes(&stream[..cut]),
            Err(PkLibError::InvalidFormat)
        ));
    }
    let stream = [0x00, 0x05, 0x82, 0x08, 0xfd, 0x10, 0xf0, 0x0f];
    assert_eq!(explode_bytes(&stream).unwrap(), b"ABABA".to_vec());
    for cut in 3..stream.len() {
        assert!(matches!(
            explode_bytes(&stream[..cut]),
            Err(PkLibError::InvalidFormat)
        ));
    }
}

#[test]
fn repetition_before_the_output_is_rejected() {
    let stream = [0x00, 0x05, 0x9f, 0x04, 0xfc, 0x03];
    assert!(matches!(
        explode_bytes(&stream),
        Err(PkLibError::InvalidDistance(5))
    ));
    let stream = [0x00, 0x05, 0x82, 0x7e, 0x08, 0xf8, 0x07];
    assert!(matches!(
        explode_bytes(&stream),
        Err(PkLibError::InvalidDistance(2))
    ));
}

#[test]
fn repetition_beyond_the_window_is_rejected() {
    let stream = [
        0x00, 0x05, 0x82, 0x02, 0xf8, 0x07, 0x01, 0xfc, 0x83, 0x00, 0xfe, 0x41, 0x00, 0xff, 0x20,
        0x80, 0x7f, 0x10, 0xc0, 0x3f, 0x08, 0xe0, 0x1f, 0x04, 0x68, 0x0f, 0x02, 0xfc, 0x07, 0x01,
        0xff,
    ];
    assert!(matches!(
        explode_bytes(&stream),
        Err(PkLibError::BufferTooSmall)
    ));
    let stream = [
        0x00, 0x05, 0x82, 0x02, 0xf8, 0x07, 0x01, 0xfc, 0x83, 0x00, 0xfe, 0x41, 0x00, 0xff, 0x20,
        0x80, 0x7f, 0x10, 0xc0, 0x3f, 0x08, 0xe0, 0x1f, 0x04, 0x64, 0x0f, 0x02, 0xfc, 0x07, 0x01,
        0xff,
    ];
    assert_eq!(explode_bytes(&stream).unwrap(), vec![0x41; 4612]);
}

#[test]
fn hostile_input_never_panics() {
    for seed in 0..200u32 {
        let mut data = pseudo_random(64 + (seed as usize % 50), 256);
        data[0] = (seed % 2) as u8;
        data[1] = 4 + (seed % 3) as u8;
        let _ = explode_bytes(&data);
    }
    for len in 0..40usize {
        let _ = explode_bytes(&vec![0u8; len]);
        let _ = explode_bytes(&vec![1u8; len]);
        let _ = explode_bytes(&vec![0xffu8; len]);
    }
}
