use pklib::explode::ExplodeState;
use pklib::{
    explode_bytes, explode_mpq_bytes, implode_bytes, CompressionMode, DictionarySize,
    ExplodeReader, ImplodeWriter, PkLibError,
};

fn sample(count: usize) -> Vec<u8> {
    (0..count).map(|i| ((i * i + i / 7) % 11) as u8).collect()
}

#[test]
fn reader_hands_out_the_output_in_pieces() {
    let data = sample(10000);
    let stream = implode_bytes(&data, CompressionMode::Binary, DictionarySize::Size2K).unwrap();
    let mut reader = ExplodeReader::new(stream).unwrap();
    let mut out = Vec::new();
    let mut buf = [0u8; 100];
    loop {
        let count = reader.read(&mut buf).unwrap();
        if count == 0 {
            break;
        }
        out.extend_from_slice(&buf[..count]);
    }
    assert_eq!(out, data);
    assert!(reader.finished);
    assert_eq!(reader.read(&mut buf).unwrap(), 0);
}

#[test]
fn reader_expands_block_by_block() {
    let data = sample(10000);
    let stream = implode_bytes(&data, CompressionMode::ASCII, DictionarySize::Size4K).unwrap();
    let mut reader = ExplodeReader::new(stream).unwrap();
    assert!(!reader.initialized);
    assert_eq!(reader.expand().unwrap(), 0x1000);
    assert!(reader.initialized);
    assert_eq!(reader.expand().unwrap(), 0x1000);
    assert_eq!(reader.expand().unwrap(), 10000 - 0x2000);
    assert!(reader.finished);
    assert_eq!(reader.expand().unwrap(), 0);
    assert_eq!(reader.output_buffer, data);
}

#[test]
fn reader_with_an_empty_buffer_reads_nothing() {
    let stream = implode_bytes(b"abc", CompressionMode::Binary, DictionarySize::Size1K).unwrap();
    let mut reader = ExplodeReader::new(stream).unwrap();
    let mut empty: [u8; 0] = [];
    assert_eq!(reader.read(&mut empty).unwrap(), 0);
    let mut buf = [0u8; 8];
    assert_eq!(reader.read(&mut buf).unwrap(), 3);
    assert_eq!(&buf[..3], b"abc");
}

#[test]
fn reader_gives_finished_blocks_before_the_error() {
    let data = sample(5000);
    let stream = implode_bytes(&data, CompressionMode::Binary, DictionarySize::Size2K).unwrap();
    let cut = &stream[..stream.len() - 2];
    let mut reader = ExplodeReader::new(cut.to_vec()).unwrap();
    let mut buf = vec![0u8; 0x1000];
    assert_eq!(reader.read(&mut buf).unwrap(), 0x1000);
    assert_eq!(&buf[..], &data[..0x1000]);
    assert!(matches!(
        reader.read(&mut buf),
        Err(PkLibError::InvalidFormat)
    ));
}

#[test]
fn reader_takes_the_stream_in_pieces() {
    let data = sample(50000);
    let stream = implode_bytes(&data, CompressionMode::Binary, DictionarySize::Size1K).unwrap();
    for piece in [1usize, 7, 0x800, 5000] {
        let mut reader = ExplodeReader::open();
        let mut out = Vec::new();
        let mut buf = [0u8; 333];
        for chunk in stream.chunks(piece) {
            reader.feed(chunk);
            loop {
                let count = reader.read(&mut buf).unwrap();
                if count == 0 {
                    break;
                }
                out.extend_from_slice(&buf[..count]);
            }
            assert!(reader.input.len() < 0x1000 + 0x900 + piece);
        }
        reader.close();
        loop {
            let count = reader.read(&mut buf).unwrap();
            if count == 0 {
                break;
            }
            out.extend_from_slice(&buf[..count]);
        }
        assert!(reader.finished);
        assert_eq!(out, data);
    }
}

#[test]
fn reader_waits_for_the_rest_of_a_token() {
    let stream = [0x00, 0x05, 0x82, 0x08, 0xfd, 0x10, 0xf0, 0x0f];
    let mut buf = [0u8; 16];
    for cut in 0..stream.len() {
        let mut reader = ExplodeReader::open();
        reader.feed(&stream[..cut]);
        assert_eq!(reader.read(&mut buf).unwrap(), 0);
        assert!(!reader.finished);
        assert_eq!(reader.expand().unwrap(), 0);
        reader.feed(&stream[cut..]);
        assert_eq!(reader.read(&mut buf).unwrap(), 5);
        assert_eq!(&buf[..5], b"ABABA");
        assert!(reader.finished);
        reader.feed(&[1, 2, 3]);
        assert_eq!(reader.read(&mut buf).unwrap(), 0);

        let mut reader = ExplodeReader::open();
        reader.feed(&stream[..cut]);
        assert_eq!(reader.read(&mut buf).unwrap(), 0);
        reader.close();
        if cut < 3 {
            assert!(matches!(
                reader.read(&mut buf),
                Err(PkLibError::UnexpectedEof)
            ));
        } else {
            assert!(matches!(
                reader.read(&mut buf),
                Err(PkLibError::InvalidFormat)
            ));
        }
    }
}

#[test]
fn reader_rejects_a_header_byte_as_soon_as_it_comes() {
    let mut buf = [0u8; 4];
    let mut reader = ExplodeReader::open();
    reader.feed(&[1]);
    assert_eq!(reader.read(&mut buf).unwrap(), 0);
    reader.feed(&[9]);
    assert!(matches!(
        reader.read(&mut buf),
        Err(PkLibError::InvalidDictionaryBits(9))
    ));
    let mut reader = ExplodeReader::open();
    reader.feed(&[7]);
    assert!(matches!(
        reader.read(&mut buf),
        Err(PkLibError::InvalidCompressionMode(7))
    ));
    let mut reader = ExplodeReader::open();
    reader.feed(&[0x00, 0x05, 0x9f, 0x04]);
    assert_eq!(reader.read(&mut buf).unwrap(), 0);
    reader.feed(&[0xfc]);
    assert!(matches!(
        reader.read(&mut buf),
        Err(PkLibError::InvalidDistance(5))
    ));
}

#[test]
fn reader_rejects_the_header_at_the_first_read() {
    let mut reader = ExplodeReader::new(vec![0, 9, 0, 0]).unwrap();
    let mut buf = [0u8; 4];
    assert!(matches!(
        reader.read(&mut buf),
        Err(PkLibError::InvalidDictionaryBits(9))
    ));
}

#[test]
fn state_reads_the_header() {
    let mut state = ExplodeState::new();
    assert_eq!(state.output_pos, 0x1000);
    assert!(state.initialize(&[1, 6, 0x01, 0xff]).is_ok());
    assert_eq!(state.ctype, CompressionMode::ASCII);
    assert_eq!(state.dsize_bits, 6);
    assert_eq!(state.dsize_mask, 0x3f);
    assert_eq!(state.bit_buff, 1);
    assert_eq!(state.in_pos, 3);
    assert_eq!(state.length_codes[5], 0);
    assert_eq!(state.length_codes[3], 1);
    assert_eq!(state.length_codes[0], 15);
    assert_eq!(state.dist_pos_codes[3], 0);
    assert_eq!(state.dist_pos_codes[0], 0x3f);
    assert_eq!(state.offs_2c34[0x0f], 0x20);
    assert_eq!(state.offs_2c34[0x90], 0xff);
    assert_eq!(state.offs_2d34[0x49], 0x00);
    assert_eq!(state.offs_2eb4[0x00], 0xff);
    assert_eq!(state.ch_bits_asc[0x20], 4);
    assert_eq!(state.ch_bits_asc[0x00], 7);
    assert_eq!(state.ch_bits_asc[0xff], 5);
    assert!(matches!(
        state.initialize(&[3]),
        Err(PkLibError::InvalidCompressionMode(3))
    ));
}

#[test]
fn state_decodes_token_by_token() {
    let stream = [0x00, 0x05, 0x82, 0x08, 0xfd, 0x10, 0xf0, 0x0f];
    let mut state = ExplodeState::new();
    state.initialize(&stream).unwrap();
    assert_eq!(state.decode_lit(&stream), 0x41);
    assert_eq!(state.decode_lit(&stream), 0x42);
    assert_eq!(state.decode_lit(&stream), 0x101);
    assert_eq!(state.decode_dist(&stream, 3), 2);
    assert_eq!(state.decode_lit(&stream), 0x305);
}

#[test]
fn state_reports_the_end_of_the_input() {
    let stream = [0x00, 0x05, 0x82];
    let mut state = ExplodeState::new();
    state.initialize(&stream).unwrap();
    assert_eq!(state.waste_bits(&stream, 1), 1);
    assert_eq!(state.bit_buff, 0x82);
    assert_eq!(state.decode_lit(&stream), 0x306);
    let stream = [0x00, 0x05, 0x82, 0x08];
    let mut state = ExplodeState::new();
    state.initialize(&stream).unwrap();
    assert_eq!(state.waste_bits(&stream, 1), 0);
    assert_eq!(state.bit_buff, 0x0441);
    assert_eq!(state.extra_bits, 7);
    assert_eq!(state.decode_dist(&stream, 3), 0);
}

#[test]
fn mpq_data_is_an_ordinary_stream() {
    let stream = [0x00, 0x04, 0x82, 0x24, 0x25, 0x8f, 0x80, 0x7f];
    assert_eq!(
        explode_mpq_bytes(&stream).unwrap(),
        explode_bytes(&stream).unwrap()
    );
}

#[test]
fn writer_gives_the_stream_of_all_its_input() {
    let data = sample(12000);
    for chunk_size in [1usize, 10, 4096, 5000] {
        let mut writer =
            ImplodeWriter::new(Vec::new(), CompressionMode::ASCII, DictionarySize::Size1K)
                .unwrap();
        for chunk in data.chunks(chunk_size) {
            assert_eq!(writer.write(chunk).unwrap(), chunk.len());
        }
        writer.flush().unwrap();
        let stream = writer.finish().unwrap();
        assert_eq!(
            stream,
            implode_bytes(&data, CompressionMode::ASCII, DictionarySize::Size1K).unwrap()
        );
    }
}

#[test]
fn writer_compresses_blocks_as_the_input_comes() {
    let data = sample(30000);
    let whole = implode_bytes(&data, CompressionMode::Binary, DictionarySize::Size4K).unwrap();
    let mut writer =
        ImplodeWriter::new(Vec::new(), CompressionMode::Binary, DictionarySize::Size4K).unwrap();
    let mut stream = Vec::new();
    writer.write(&data[..0x1203]).unwrap();
    assert_eq!(writer.state.input_pos, 0);
    assert!(!writer.initialized);
    assert!(writer.take_output().is_empty());
    writer.write(&data[0x1203..0x1204]).unwrap();
    assert!(writer.initialized);
    assert!(writer.state.input_pos >= 0x1000);
    assert!(writer.state.input_pos < 0x1204);
    writer.write(&data[0x1204..20000]).unwrap();
    assert!(writer.state.input_pos > 20000 - 0x1204);
    writer.flush().unwrap();
    let part = writer.take_output();
    assert!(!part.is_empty());
    assert_eq!(&part[..], &whole[..part.len()]);
    stream.extend_from_slice(&part);
    writer.write(&data[20000..]).unwrap();
    stream.extend_from_slice(&writer.take_output());
    stream.extend_from_slice(&writer.finish().unwrap());
    assert_eq!(stream, whole);
    assert_eq!(explode_bytes(&stream).unwrap(), data);
}

#[test]
fn writer_lets_go_of_old_input() {
    let data = sample(200000);
    let mut writer =
        ImplodeWriter::new(Vec::new(), CompressionMode::ASCII, DictionarySize::Size2K).unwrap();
    let mut stream = Vec::new();
    for chunk in data.chunks(777) {
        writer.write(chunk).unwrap();
        assert!(writer.input_buffer.len() < 0x1204 + 2048 + 0x4000);
        assert!(200000 - writer.state.input_pos >= 200000 - writer.input_base - writer.input_buffer.len());
        let ready = writer.take_output();
        assert_eq!(ready.len() % 0x800, 0);
        stream.extend_from_slice(&ready);
        assert!(writer.writer.is_empty());
    }
    assert!(writer.input_base > 150000);
    stream.extend_from_slice(&writer.finish().unwrap());
    assert_eq!(
        stream,
        implode_bytes(&data, CompressionMode::ASCII, DictionarySize::Size2K).unwrap()
    );
    assert_eq!(explode_bytes(&stream).unwrap(), data);
}

#[test]
fn writer_writes_behind_what_the_sink_holds() {
    let mut writer = ImplodeWriter::new(
        vec![9, 8, 7],
        CompressionMode::Binary,
        DictionarySize::Size2K,
    )
    .unwrap();
    writer.write(b"").unwrap();
    let stream = writer.finish().unwrap();
    assert_eq!(stream, vec![9, 8, 7, 0x00, 0x05, 0x01, 0xff]);
}

#[test]
fn writer_encodes_tokens() {
    let mut writer =
        ImplodeWriter::new(Vec::new(), CompressionMode::Binary, DictionarySize::Size2K).unwrap();
    writer.initialize().unwrap();
    writer.encode_literal(0x41).unwrap();
    writer.encode_literal(0x42).unwrap();
    writer
        .encode_match(pklib::implode::MatchResult::new(3, 2))
        .unwrap();
    assert!(matches!(
        writer.encode_match(pklib::implode::MatchResult::new(1, 2)),
        Err(PkLibError::InvalidLength(1))
    ));
    assert!(matches!(
        writer.encode_match(pklib::implode::MatchResult::new(519, 2)),
        Err(PkLibError::InvalidLength(519))
    ));
    assert!(matches!(
        writer.encode_match(pklib::implode::MatchResult::new(3, 0)),
        Err(PkLibError::InvalidDistance(0))
    ));
    assert!(matches!(
        writer.encode_match(pklib::implode::MatchResult::new(3, 2049)),
        Err(PkLibError::InvalidDistance(2049))
    ));
    assert!(matches!(
        writer.encode_match(pklib::implode::MatchResult::new(2, 257)),
        Err(PkLibError::InvalidDistance(257))
    ));
    writer.write_end_marker().unwrap();
    let count = writer.state.out_bytes as usize;
    assert_eq!(
        &writer.state.out_buff[..count],
        &[0x00, 0x05, 0x82, 0x08, 0xfd, 0x10, 0xf0, 0x0f]
    );
}
