use load_data::{
    decode_chunk, load_chunk, read_chunk, to_signed, ChunkInfo, ChunkRead, DataType, LoadError,
    LoadedData, ReadOutcome,
};

fn chunk(path: &str, start: u64, end: u64) -> ChunkInfo {
    ChunkInfo { filepath: path.to_string(), start_idx: start, end_idx: end }
}

#[test]
fn bytes_below_128_keep_their_value() {
    assert_eq!(to_signed(0), 0);
    assert_eq!(to_signed(1), 1);
    assert_eq!(to_signed(127), 127);
}

#[test]
fn bytes_from_128_on_wrap_to_negative() {
    assert_eq!(to_signed(128), -128);
    assert_eq!(to_signed(200), -56);
    assert_eq!(to_signed(255), -1);
}

#[test]
fn to_signed_agrees_with_the_cast_on_every_byte() {
    for b in 0..=255u8 {
        assert_eq!(to_signed(b), b as i8);
    }
}

#[test]
fn new_chunk_keeps_its_fields() {
    let c = ChunkInfo::new("a.bin".to_string(), 3, 9).unwrap();
    assert_eq!(c, chunk("a.bin", 3, 9));
    assert!(c.is_valid());
    assert_eq!(c.byte_len(), 6);
}

#[test]
fn new_chunk_accepts_an_empty_range() {
    let c = ChunkInfo::new("a.bin".to_string(), 7, 7).unwrap();
    assert_eq!(c.byte_len(), 0);
}

#[test]
fn new_chunk_rejects_an_inverted_range() {
    assert_eq!(ChunkInfo::new("a.bin".to_string(), 9, 3), Err(LoadError::InvalidJobSpec));
}

#[test]
fn inverted_chunk_has_no_bytes() {
    let c = chunk("a.bin", 9, 3);
    assert!(!c.is_valid());
    assert_eq!(c.byte_len(), 0);
}

#[test]
fn byte_len_spans_the_whole_offset_range() {
    assert_eq!(chunk("a.bin", 0, u64::MAX).byte_len(), u64::MAX);
}

#[test]
fn read_of_the_exact_length_is_returned_whole() {
    let got = read_chunk(&chunk("a.bin", 10, 13), ReadOutcome::Data(vec![7, 8, 9]));
    assert_eq!(got, Ok(vec![7, 8, 9]));
}

#[test]
fn read_beyond_the_chunk_is_cut_to_the_chunk() {
    let got = read_chunk(&chunk("a.bin", 10, 12), ReadOutcome::Data(vec![7, 8, 9, 10]));
    assert_eq!(got, Ok(vec![7, 8]));
}

#[test]
fn read_of_fewer_bytes_is_a_short_read() {
    let got = read_chunk(&chunk("a.bin", 10, 14), ReadOutcome::Data(vec![7, 8, 9]));
    assert_eq!(got, Err(LoadError::ShortRead { path: "a.bin".to_string(), start: 10, end: 14 }));
}

#[test]
fn read_of_nothing_for_an_empty_chunk_is_complete() {
    let got = read_chunk(&chunk("a.bin", 5, 5), ReadOutcome::Data(vec![]));
    assert_eq!(got, Ok(vec![]));
}

#[test]
fn failed_read_is_an_io_error_with_its_cause() {
    let got = read_chunk(&chunk("a.bin", 0, 4), ReadOutcome::Failed("disk on fire".to_string()));
    assert_eq!(
        got,
        Err(LoadError::Io { path: "a.bin".to_string(), cause: "disk on fire".to_string() })
    );
}

#[test]
fn inverted_range_is_rejected_whatever_was_read() {
    let got = read_chunk(&chunk("a.bin", 4, 0), ReadOutcome::Data(vec![1, 2, 3, 4]));
    assert_eq!(got, Err(LoadError::InvalidJobSpec));
    let got = read_chunk(&chunk("a.bin", 4, 0), ReadOutcome::Failed("nope".to_string()));
    assert_eq!(got, Err(LoadError::InvalidJobSpec));
}

#[test]
fn int8_decoding_keeps_length_and_order() {
    let got = decode_chunk(&chunk("a.bin", 0, 5), vec![0, 127, 128, 200, 255], DataType::Int8);
    assert_eq!(got, Ok(LoadedData::Int8(vec![0, 127, -128, -56, -1])));
}

#[test]
fn int8_decoding_of_no_bytes_is_empty() {
    let got = decode_chunk(&chunk("a.bin", 0, 0), vec![], DataType::Int8);
    assert_eq!(got, Ok(LoadedData::Int8(vec![])));
}

#[test]
fn utf8_decoding_takes_the_whole_chunk_as_one_string() {
    let text = "grüße, 世界 🦀";
    let got = decode_chunk(&chunk("a.txt", 0, 20), text.as_bytes().to_vec(), DataType::Utf8Str);
    assert_eq!(got, Ok(LoadedData::Utf8Str(vec![text.to_string()])));
}

#[test]
fn utf8_decoding_of_no_bytes_is_one_empty_string() {
    let got = decode_chunk(&chunk("a.txt", 0, 0), vec![], DataType::Utf8Str);
    assert_eq!(got, Ok(LoadedData::Utf8Str(vec![String::new()])));
}

#[test]
fn utf8_decoding_rejects_a_cut_multi_byte_sequence() {
    let got = decode_chunk(&chunk("a.txt", 2, 4), vec![0xE4, 0xB8], DataType::Utf8Str);
    assert_eq!(
        got,
        Err(LoadError::InvalidEncoding { path: "a.txt".to_string(), start: 2, end: 4 })
    );
}

#[test]
fn utf8_decoding_rejects_overlong_and_surrogate_encodings() {
    for bytes in [vec![0xC0u8, 0x80], vec![0xED, 0xA0, 0x80], vec![0xFF], vec![0x80]] {
        let got = decode_chunk(&chunk("a.txt", 0, 3), bytes, DataType::Utf8Str);
        assert_eq!(
            got,
            Err(LoadError::InvalidEncoding { path: "a.txt".to_string(), start: 0, end: 3 })
        );
    }
}

#[test]
fn int8_decoding_accepts_bytes_that_are_no_text() {
    let got = decode_chunk(&chunk("a.bin", 0, 2), vec![0xC0, 0x80], DataType::Int8);
    assert_eq!(got, Ok(LoadedData::Int8(vec![-64, -128])));
}

#[test]
fn load_chunk_checks_the_length_before_it_decodes() {
    let item = ChunkRead { chunk: chunk("a.txt", 0, 4), outcome: ReadOutcome::Data(vec![0xFF]) };
    assert_eq!(
        load_chunk(item, DataType::Utf8Str),
        Err(LoadError::ShortRead { path: "a.txt".to_string(), start: 0, end: 4 })
    );
}

#[test]
fn load_chunk_decodes_only_the_bytes_of_the_chunk() {
    let item = ChunkRead {
        chunk: chunk("a.txt", 0, 2),
        outcome: ReadOutcome::Data(vec![b'o', b'k', 0xFF, 0xFF]),
    };
    assert_eq!(
        load_chunk(item, DataType::Utf8Str),
        Ok(LoadedData::Utf8Str(vec!["ok".to_string()]))
    );
}

#[test]
fn load_chunk_reports_a_failed_read() {
    let item =
        ChunkRead { chunk: chunk("a.bin", 0, 2), outcome: ReadOutcome::Failed("eio".to_string()) };
    assert_eq!(
        load_chunk(item, DataType::Int8),
        Err(LoadError::Io { path: "a.bin".to_string(), cause: "eio".to_string() })
    );
}
