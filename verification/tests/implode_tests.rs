use pklib::{explode_bytes, implode_bytes, CompressionMode, DictionarySize, ImplodeWriter};

#[test]
fn test_basic_compression() {
    let test_data = b"Hello, World!";

    let compressed =
        implode_bytes(test_data, CompressionMode::Binary, DictionarySize::Size2K).unwrap();
    assert!(!compressed.is_empty());
    assert!(compressed.len() >= 3);

    let compressed_ascii =
        implode_bytes(test_data, CompressionMode::ASCII, DictionarySize::Size2K).unwrap();
    assert!(!compressed_ascii.is_empty());
    assert!(compressed_ascii.len() >= 3);

    println!("Original: {} bytes", test_data.len());
    println!("Compressed (Binary): {} bytes", compressed.len());
    println!("Compressed (ASCII): {} bytes", compressed_ascii.len());
}

#[test]
fn implode_tests_test_round_trip() {
    let test_data = b"Hello, World! This is a test of the PKLib compression system.";

    for dict_size in [
        DictionarySize::Size1K,
        DictionarySize::Size2K,
        DictionarySize::Size4K,
    ] {
        for mode in [CompressionMode::Binary, CompressionMode::ASCII] {
            println!("Testing {:?} mode with {:?} dictionary", mode, dict_size);

            let compressed = implode_bytes(test_data, mode, dict_size).unwrap();
            let decompressed = explode_bytes(&compressed).unwrap();

            assert_eq!(
                test_data,
                &decompressed[..],
                "Round-trip failed for {:?} mode with {:?} dictionary",
                mode,
                dict_size
            );
        }
    }
}

#[test]
fn test_streaming_compression() {
    let test_data = b"This is a longer test string that should demonstrate the streaming compression API working correctly.";

    let mut writer =
        ImplodeWriter::new(Vec::new(), CompressionMode::Binary, DictionarySize::Size2K).unwrap();

    let chunk_size = 10;
    for chunk in test_data.chunks(chunk_size) {
        assert_eq!(writer.write(chunk).unwrap(), chunk.len());
    }

    let output = writer.finish().unwrap();

    let decompressed = explode_bytes(&output).unwrap();
    assert_eq!(test_data, &decompressed[..]);
}

#[test]
fn test_repetitive_data() {
    let mut test_data = Vec::new();
    for _ in 0..100 {
        test_data.extend_from_slice(b"ABCDEFGH");
    }

    let compressed =
        implode_bytes(&test_data, CompressionMode::Binary, DictionarySize::Size2K).unwrap();

    println!(
        "Repetitive data: {} -> {} bytes ({}% of original)",
        test_data.len(),
        compressed.len(),
        (compressed.len() * 100) / test_data.len()
    );

    let decompressed = explode_bytes(&compressed).unwrap();
    assert_eq!(test_data, decompressed);
}

#[test]
fn implode_tests_test_edge_cases() {
    let empty_data = b"";
    let compressed =
        implode_bytes(empty_data, CompressionMode::Binary, DictionarySize::Size2K).unwrap();
    let decompressed = explode_bytes(&compressed).unwrap();
    assert_eq!(empty_data, &decompressed[..]);

    let single_byte = b"X";
    let compressed =
        implode_bytes(single_byte, CompressionMode::Binary, DictionarySize::Size2K).unwrap();
    let decompressed = explode_bytes(&compressed).unwrap();
    assert_eq!(single_byte, &decompressed[..]);

    let small_data = b"Hi";
    let compressed =
        implode_bytes(small_data, CompressionMode::ASCII, DictionarySize::Size1K).unwrap();
    let decompressed = explode_bytes(&compressed).unwrap();
    assert_eq!(small_data, &decompressed[..]);
}

#[test]
fn test_ascii_optimization() {
    let ascii_text =
        b"The quick brown fox jumps over the lazy dog. This is a test of ASCII compression mode.";

    let binary_compressed =
        implode_bytes(ascii_text, CompressionMode::Binary, DictionarySize::Size2K).unwrap();
    let ascii_compressed =
        implode_bytes(ascii_text, CompressionMode::ASCII, DictionarySize::Size2K).unwrap();

    println!("ASCII text compression:");
    println!("  Binary mode: {} bytes", binary_compressed.len());
    println!("  ASCII mode:  {} bytes", ascii_compressed.len());

    let binary_decompressed = explode_bytes(&binary_compressed).unwrap();
    let ascii_decompressed = explode_bytes(&ascii_compressed).unwrap();

    assert_eq!(ascii_text, &binary_decompressed[..]);
    assert_eq!(ascii_text, &ascii_decompressed[..]);
}

#[test]
fn test_dictionary_sizes() {
    let test_data = b"Dictionary size testing with various amounts of data to see how different dictionary sizes affect compression.";

    for dict_size in [
        DictionarySize::Size1K,
        DictionarySize::Size2K,
        DictionarySize::Size4K,
    ] {
        println!("Testing dictionary size: {:?}", dict_size);

        let compressed = implode_bytes(test_data, CompressionMode::Binary, dict_size).unwrap();
        let decompressed = explode_bytes(&compressed).unwrap();

        assert_eq!(test_data, &decompressed[..]);

        println!("  Compressed size: {} bytes", compressed.len());
    }
}

#[test]
fn test_max_repetition_length() {
    let mut test_data = Vec::new();

    for _ in 0..200 {
        test_data.extend_from_slice(b"ABC");
    }

    let compressed =
        implode_bytes(&test_data, CompressionMode::Binary, DictionarySize::Size4K).unwrap();
    let decompressed = explode_bytes(&compressed).unwrap();

    assert_eq!(test_data, decompressed);

    println!(
        "Max repetition test: {} -> {} bytes",
        test_data.len(),
        compressed.len()
    );
}

#[test]
fn test_compression_modes() {
    let test_data = b"The quick brown fox jumps over the lazy dog. This is a test of different compression modes and dictionary sizes.";

    println!("\nTesting compression modes and dictionary sizes:");

    for mode in [CompressionMode::Binary, CompressionMode::ASCII] {
        for dict_size in [
            DictionarySize::Size1K,
            DictionarySize::Size2K,
            DictionarySize::Size4K,
        ] {
            println!("Testing {:?} mode with {:?} dictionary", mode, dict_size);

            let compressed = implode_bytes(test_data, mode, dict_size).unwrap();
            let decompressed = explode_bytes(&compressed).unwrap();

            assert_eq!(test_data, &decompressed[..]);

            println!(
                "{} bytes -> {} bytes ({}% ratio)",
                test_data.len(),
                compressed.len(),
                (compressed.len() * 100) / test_data.len()
            );
        }
    }
}
