use pklib::common::{
    HASH_TABLE_SIZE, IN_BUFF_SIZE, MAX_REP_LENGTH, MAX_WINDOW_SIZE, OUT_BUFF_SIZE, WORK_BUFF_SIZE,
};
use pklib::{implode_bytes, CompressionMode, DictionarySize};

#[test]
fn test_compression_mode() {
    assert_eq!(
        CompressionMode::from_u8(0).unwrap(),
        CompressionMode::Binary
    );
    assert_eq!(CompressionMode::from_u8(1).unwrap(), CompressionMode::ASCII);
    assert!(CompressionMode::from_u8(2).is_err());
}

#[test]
fn test_dictionary_size() {
    assert_eq!(DictionarySize::Size1K.bits(), 4);
    assert_eq!(DictionarySize::Size2K.bits(), 5);
    assert_eq!(DictionarySize::Size4K.bits(), 6);

    assert_eq!(DictionarySize::Size1K.mask(), 0x3FF);
    assert_eq!(DictionarySize::Size2K.mask(), 0x7FF);
    assert_eq!(DictionarySize::Size4K.mask(), 0xFFF);

    assert_eq!(
        DictionarySize::from_bits(4).unwrap(),
        DictionarySize::Size1K
    );
    assert_eq!(
        DictionarySize::from_bits(5).unwrap(),
        DictionarySize::Size2K
    );
    assert_eq!(
        DictionarySize::from_bits(6).unwrap(),
        DictionarySize::Size4K
    );
    assert!(DictionarySize::from_bits(7).is_err());

    assert_eq!(
        DictionarySize::from_bytes(1024).unwrap(),
        DictionarySize::Size1K
    );
    assert_eq!(
        DictionarySize::from_bytes(2048).unwrap(),
        DictionarySize::Size2K
    );
    assert_eq!(
        DictionarySize::from_bytes(4096).unwrap(),
        DictionarySize::Size4K
    );
    assert!(DictionarySize::from_bytes(512).is_err());
}

#[test]
fn test_constants() {
    assert_eq!(MAX_REP_LENGTH, 516);
    assert_eq!(MAX_WINDOW_SIZE, 0x3000);
    assert_eq!(WORK_BUFF_SIZE, 0x2204);
    assert_eq!(OUT_BUFF_SIZE, 0x802);
    assert_eq!(IN_BUFF_SIZE, 0x800);
    assert_eq!(HASH_TABLE_SIZE, 0x900);
}

#[test]
fn test_reexports() {
    let _ = CompressionMode::Binary;
    let _ = DictionarySize::Size2K;

    let data = b"test";
    let _ = implode_bytes(data, CompressionMode::Binary, DictionarySize::Size2K);
}
