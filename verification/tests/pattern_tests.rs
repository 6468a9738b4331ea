use pklib::implode::{byte_pair_hash, ImplodeState, MatchResult};
use pklib::{CompressionMode, DictionarySize};

#[test]
fn test_byte_pair_hash() {
    let buffer = b"AB";
    let hash = byte_pair_hash(buffer);
    let expected = (b'A' as usize * 4) + (b'B' as usize * 5);
    assert_eq!(hash, expected);
}

#[test]
fn test_sort_buffer_basic() {
    let mut state = ImplodeState::new(CompressionMode::Binary, DictionarySize::Size1K).unwrap();

    let test_data = b"ABCABC";
    let len = test_data.len().min(state.work_buff.len());
    state.work_buff[..len].copy_from_slice(&test_data[..len]);

    state.sort_buffer(0, len);

    let hash_ab = byte_pair_hash(b"AB");
    assert!(state.get_hash_index(hash_ab).is_some());

    let positions = state.find_hash_positions(hash_ab, len);
    assert!(!positions.is_empty());
    assert_eq!(positions, vec![0, 3]);
}

#[test]
fn test_hash_table_edge_cases() {
    let mut state = ImplodeState::new(CompressionMode::Binary, DictionarySize::Size1K).unwrap();

    state.sort_buffer(0, 0);

    state.work_buff[0] = b'A';
    state.sort_buffer(0, 1);

    state.work_buff[0] = b'A';
    state.work_buff[1] = b'B';
    state.sort_buffer(0, 2);

    let hash = byte_pair_hash(b"AB");
    assert!(state.get_hash_index(hash).is_some());
}

#[test]
fn test_no_match() {
    let mut state = ImplodeState::new(CompressionMode::Binary, DictionarySize::Size1K).unwrap();

    let test_data = b"ABCDEFGHIJ";
    let len = test_data.len().min(state.work_buff.len());
    state.work_buff[..len].copy_from_slice(&test_data[..len]);
    state.work_bytes = len;

    state.sort_buffer(0, len);

    let result = state.find_repetition(5);
    assert!(!result.is_match());
}

#[test]
fn test_simple_match() {
    let mut state = ImplodeState::new(CompressionMode::Binary, DictionarySize::Size1K).unwrap();

    let test_data = b"ABCDEFABCDEF";
    let len = test_data.len().min(state.work_buff.len());
    state.work_buff[..len].copy_from_slice(&test_data[..len]);
    state.work_bytes = len;

    state.sort_buffer(0, len);

    let result = state.find_repetition(6);
    assert!(result.is_match());
    assert_eq!(result.distance, 6);
    assert!(result.length >= 2);
    assert_eq!(result.length, 6);
    assert_eq!(state.distance, 5);
}

#[test]
fn test_run_length_match() {
    let mut state = ImplodeState::new(CompressionMode::Binary, DictionarySize::Size1K).unwrap();

    let test_data = b"AAAAAAAAA";
    let len = test_data.len().min(state.work_buff.len());
    state.work_buff[..len].copy_from_slice(&test_data[..len]);
    state.work_bytes = len;

    let length = state.find_run_length_match(0, len);
    assert_eq!(length, len);
}

#[test]
fn test_compare_sequences() {
    let mut state = ImplodeState::new(CompressionMode::Binary, DictionarySize::Size1K).unwrap();

    let test_data = b"ABCDEFABCXYZ";
    let len = test_data.len().min(state.work_buff.len());
    state.work_buff[..len].copy_from_slice(&test_data[..len]);
    state.work_bytes = len;

    let length = state.compare_sequences(0, 6, 6);
    assert_eq!(length, 3);

    let length = state.compare_sequences(0, 3, 3);
    assert_eq!(length, 0);
}

#[test]
fn test_match_result() {
    let match_result = MatchResult::new(5, 10);
    assert!(match_result.is_match());
    assert_eq!(match_result.length, 5);
    assert_eq!(match_result.distance, 10);

    let no_match = MatchResult::no_match();
    assert!(!no_match.is_match());
    assert_eq!(no_match.length, 0);
    assert_eq!(no_match.distance, 0);

    let short_match = MatchResult::new(1, 5);
    assert!(!short_match.is_match());
}

#[test]
fn hash_index_lists_positions_by_hash() {
    let mut state = ImplodeState::new(CompressionMode::Binary, DictionarySize::Size1K).unwrap();
    let data = b"ABABXAB";
    state.work_buff[..data.len()].copy_from_slice(data);
    state.work_bytes = data.len();
    state.sort_buffer(0, data.len());
    assert_eq!(state.index_begin, 0);
    assert_eq!(state.index_len, 6);
    let hash_ab = byte_pair_hash(b"AB");
    let hash_ba = byte_pair_hash(b"BA");
    assert_eq!(hash_ab, 65 * 4 + 66 * 5);
    assert_eq!(state.find_hash_positions(hash_ab, 7), vec![0, 2, 5]);
    assert_eq!(state.find_hash_positions(hash_ab, 5), vec![0, 2]);
    assert_eq!(state.find_hash_positions(hash_ba, 7), vec![1]);
    assert_eq!(state.find_hash_positions(0x900, 7), Vec::<usize>::new());
    assert_eq!(state.find_hash_positions(0, 7), Vec::<usize>::new());
    let first = state.get_hash_index(hash_ab).unwrap();
    assert_eq!(state.get_hash_offset(first), Some(0));
    assert_eq!(state.get_hash_offset(first + 1), Some(2));
    assert_eq!(state.get_hash_offset(first + 2), Some(5));
    assert_eq!(state.get_hash_offset(6), None);
    assert_eq!(state.get_hash_index(0), None);
    assert_eq!(state.get_hash_index(0x900), None);
    assert!(state.validate_hash_table(0, 7));
    assert!(!state.validate_hash_table(0, 5));
}

#[test]
fn hash_index_of_a_part_of_the_buffer() {
    let mut state = ImplodeState::new(CompressionMode::Binary, DictionarySize::Size1K).unwrap();
    let data = b"ABABXAB";
    state.work_buff[..data.len()].copy_from_slice(data);
    state.work_bytes = data.len();
    state.sort_buffer(2, 100000);
    assert_eq!(state.index_begin, 2);
    assert_eq!(state.index_len, 0x2204 - 3);
    assert_eq!(
        state.find_hash_positions(byte_pair_hash(b"AB"), 7),
        vec![2, 5]
    );
    let found = state.find_repetition(5);
    assert_eq!((found.length, found.distance), (2, 3));
}

#[test]
fn dictionary_bounds_the_search() {
    let mut state = ImplodeState::new(CompressionMode::Binary, DictionarySize::Size1K).unwrap();
    state.work_buff[..3].copy_from_slice(b"XYZ");
    for i in 3..1200 {
        state.work_buff[i] = (i % 7) as u8 + 1;
    }
    state.work_buff[3] = 0xF0;
    state.work_buff[1030..1034].copy_from_slice(b"XYZ\xF1");
    state.work_buff[1100..1104].copy_from_slice(b"XYZ\xF2");
    state.work_bytes = 1200;
    state.sort_buffer(0, 1200);
    let found = state.find_repetition(1100);
    assert_eq!((found.length, found.distance), (3, 70));
    assert_eq!(state.distance, 69);
    let found = state.find_repetition(1030);
    assert!(!found.is_match());
    assert_eq!(state.distance, 69);
    let found = state.find_repetition(1199);
    assert!(!found.is_match());
}

#[test]
fn quick_check_compares_first_and_last_byte() {
    let mut state = ImplodeState::new(CompressionMode::Binary, DictionarySize::Size1K).unwrap();
    state.work_buff[..8].copy_from_slice(b"ABCDABXD");
    assert!(state.quick_match_check(0, 4, 2));
    assert!(!state.quick_match_check(0, 4, 3));
    assert!(state.quick_match_check(0, 4, 4));
    assert!(!state.quick_match_check(0, 0x2204, 1));
    assert!(!state.quick_match_check(0, 4, 0x2205));
    assert_eq!(state.compare_sequences(0, 4, 100), 2);
    assert_eq!(state.compare_sequences(0, 0x2203, 5), 0);
    assert_eq!(state.find_run_length_match(0x2204, 5), 0);
    assert_eq!(state.find_run_length_match(0, 0), 1);
    assert_eq!(state.find_run_length_match(8, 5), 5);
}

#[test]
fn index_grows_by_the_next_position() {
    let mut state = ImplodeState::new(CompressionMode::Binary, DictionarySize::Size1K).unwrap();
    let data = b"ABABXAB";
    state.work_buff[..data.len()].copy_from_slice(data);
    state.work_bytes = data.len();
    state.sort_buffer(0, 5);
    assert_eq!(state.index_len, 4);
    let hash_ab = byte_pair_hash(b"AB");
    assert_eq!(state.find_hash_positions(hash_ab, 7), vec![0, 2]);
    state.update_hash_incremental(9);
    assert_eq!(state.index_len, 4);
    state.update_hash_incremental(4);
    assert_eq!(state.index_len, 5);
    assert_eq!(state.find_hash_positions(hash_ab, 7), vec![0, 2]);
    assert_eq!(
        state.find_hash_positions(byte_pair_hash(b"XA"), 7),
        vec![4]
    );
    state.update_hash_incremental(5);
    assert_eq!(state.index_len, 6);
    assert_eq!(state.find_hash_positions(hash_ab, 7), vec![0, 2, 5]);
    assert_eq!(state.find_hash_positions(byte_pair_hash(b"BA"), 7), vec![1]);
    let mut sorted = ImplodeState::new(CompressionMode::Binary, DictionarySize::Size1K).unwrap();
    sorted.work_buff[..data.len()].copy_from_slice(data);
    sorted.sort_buffer(0, 7);
    assert_eq!(&state.phash_offs[..6], &sorted.phash_offs[..6]);
    assert_eq!(&state.phash_to_index[..], &sorted.phash_to_index[..]);
}

#[test]
fn second_search_takes_the_first_of_the_longest() {
    let mut state = ImplodeState::new(CompressionMode::Binary, DictionarySize::Size1K).unwrap();
    let data = b"abcdefghijklZabcdefghijkYWabcdefghijklmn";
    state.work_buff[..data.len()].copy_from_slice(data);
    state.work_bytes = data.len();
    state.sort_buffer(0, data.len());
    let found = state.find_repetition(26);
    assert_eq!((found.length, found.distance), (12, 26));
    assert_eq!(state.distance, 25);
    state.distance = 0;
    let better = state.find_optimized_match(26, MatchResult::new(10, 5));
    assert_eq!((better.length, better.distance), (12, 26));
    assert_eq!(state.distance, 25);
    state.distance = 7;
    let same = state.find_optimized_match(26, MatchResult::new(12, 26));
    assert_eq!((same.length, same.distance), (12, 26));
    assert_eq!(state.distance, 7);
    let skipped = state.find_optimized_match(26, MatchResult::new(10, 26));
    assert_eq!((skipped.length, skipped.distance), (11, 13));
    assert_eq!(state.distance, 12);
    let short = state.find_optimized_match(26, MatchResult::new(5, 1));
    assert_eq!((short.length, short.distance), (5, 1));
    let at_end = state.find_optimized_match(39, MatchResult::new(20, 3));
    assert_eq!((at_end.length, at_end.distance), (20, 3));
}
