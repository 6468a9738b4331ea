use pklib::implode::ImplodeState;
use pklib::{
    AsyncBatchProcessor, CompressionHeader, CompressionMode, DictionarySize, PkLibError,
    StreamOptions,
};

#[test]
fn batch_processor_keeps_what_it_is_given() {
    let processor = AsyncBatchProcessor::new();
    assert_eq!(processor.chunk_size, 64 * 1024);
    assert_eq!(processor.memory_limit, 256 * 1024 * 1024);
    let processor = processor
        .with_concurrency(3)
        .with_chunk_size(100)
        .with_memory_limit(1000);
    assert_eq!(processor.concurrency_limit, 3);
    assert_eq!(processor.chunk_size, 100);
    assert_eq!(processor.memory_limit, 1000);
    assert!(!processor.over_budget(750));
    assert!(processor.over_budget(751));
    let full = processor.with_memory_limit(usize::MAX);
    assert!(!full.over_budget(usize::MAX / 4 * 3));
    assert!(full.over_budget(usize::MAX));
    let usual = AsyncBatchProcessor::default();
    assert_eq!(usual.chunk_size, 64 * 1024);
}

#[test]
fn stream_options_have_their_values() {
    let usual = StreamOptions::default();
    assert_eq!(usual.chunk_size, 64 * 1024);
    assert_eq!(usual.buffer_count, 4);
    assert_eq!(usual.memory_limit, 128 * 1024 * 1024);
    assert!(!usual.show_progress);
    let large = StreamOptions::large_file();
    assert_eq!(large.chunk_size, 1024 * 1024);
    assert_eq!(large.buffer_count, 3);
    assert_eq!(large.memory_limit, 512 * 1024 * 1024);
    assert!(large.show_progress);
    let low = StreamOptions::low_memory();
    assert_eq!(low.chunk_size, 16 * 1024);
    assert_eq!(low.buffer_count, 2);
    assert_eq!(low.memory_limit, 32 * 1024 * 1024);
    assert!(!low.show_progress);
    assert!(low.is_flush_due(32 * 1024 * 1024));
    assert!(!low.is_flush_due(32 * 1024 * 1024 - 1));
    assert_eq!(large.next_buffer(0), 1);
    assert_eq!(large.next_buffer(2), 0);
}

#[test]
fn modes_and_sizes_have_their_header_values() {
    assert_eq!(CompressionMode::Binary.to_u8(), 0);
    assert_eq!(CompressionMode::ASCII.to_u8(), 1);
    assert_eq!(DictionarySize::Size1K.bytes(), 1024);
    assert_eq!(DictionarySize::Size2K.bytes(), 2048);
    assert_eq!(DictionarySize::Size4K.bytes(), 4096);
    assert!(matches!(
        CompressionMode::from_u8(7),
        Err(PkLibError::InvalidCompressionMode(7))
    ));
    assert!(matches!(
        DictionarySize::from_bits(3),
        Err(PkLibError::InvalidDictionaryBits(3))
    ));
    assert!(matches!(
        DictionarySize::from_bytes(4095),
        Err(PkLibError::InvalidDictionarySize(4095))
    ));
    let header = CompressionHeader {
        mode: CompressionMode::ASCII,
        dict_size: DictionarySize::Size4K,
        uncompressed_size: Some(12),
        crc32: None,
    };
    assert_eq!(header.mode, CompressionMode::ASCII);
    assert_eq!(header.dict_size.bits(), 6);
}

#[test]
fn state_builds_the_codes_of_its_mode() {
    let state = ImplodeState::new(CompressionMode::Binary, DictionarySize::Size4K).unwrap();
    assert_eq!(state.dsize_bits, 6);
    assert_eq!(state.dsize_mask, 0x3f);
    assert_eq!(state.dsize_bytes, 4096);
    assert_eq!(state.literal_bits[0x41], 9);
    assert_eq!(state.literal_codes[0x41], 0x82);
    assert_eq!(state.literal_bits[0x100], 4);
    assert_eq!(state.literal_codes[0x100], 0x0b);
    assert_eq!(state.literal_bits[0x108], 7);
    assert_eq!(state.literal_codes[0x108], 0x09);
    assert_eq!(state.literal_codes[0x109], 0x49);
    assert_eq!(state.literal_bits[0x305], 16);
    assert_eq!(state.literal_codes[0x305], 0xff01);
    let state = ImplodeState::new(CompressionMode::ASCII, DictionarySize::Size1K).unwrap();
    assert_eq!(state.literal_bits[0x20], 5);
    assert_eq!(state.literal_codes[0x20], 0x1e);
    assert_eq!(state.literal_bits[0x00], 12);
    assert_eq!(state.literal_codes[0x00], 0x0920);
    let usual = ImplodeState::default();
    assert_eq!(usual.dsize_bits, 5);
    assert_eq!(usual.ctype, CompressionMode::Binary);
}

#[test]
fn state_is_emptied_by_reset() {
    let mut state = ImplodeState::new(CompressionMode::Binary, DictionarySize::Size1K).unwrap();
    state.work_buff[..6].copy_from_slice(b"ABCABC");
    state.work_bytes = 6;
    state.sort_buffer(0, 6);
    assert_eq!(state.index_len, 5);
    let found = state.find_repetition(3);
    assert_eq!((found.length, found.distance), (3, 3));
    state.reset();
    assert_eq!(state.work_bytes, 0);
    assert_eq!(state.index_len, 0);
    assert_eq!(state.distance, 0);
    assert_eq!(&state.work_buff[..6], &[0u8; 6]);
    assert_eq!(state.literal_bits[0x41], 9);
}
