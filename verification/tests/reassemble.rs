use load_data::{
    any_inverted_range, concat_loaded, load_arrays, load_chunk, reassemble_loaded, ChunkInfo,
    ChunkRead, DataType, LoadError, LoadedData, ReadOutcome,
};

fn read(path: &str, start: u64, bytes: &[u8]) -> ChunkRead {
    ChunkRead {
        chunk: ChunkInfo {
            filepath: path.to_string(),
            start_idx: start,
            end_idx: start + bytes.len() as u64,
        },
        outcome: ReadOutcome::Data(bytes.to_vec()),
    }
}

fn many_items(n: usize) -> Vec<ChunkRead> {
    let mut items = Vec::new();
    let mut offset = 0u64;
    for i in 0..n {
        let len = i % 7;
        let bytes: Vec<u8> = (0..len).map(|k| b'a' + ((i + k) % 26) as u8).collect();
        items.push(read(if i % 2 == 0 { "even.bin" } else { "odd.bin" }, offset, &bytes));
        offset += len as u64;
    }
    items
}

fn sequentially(items: Vec<ChunkRead>, data_type: DataType) -> Result<LoadedData, LoadError> {
    let mut parts = Vec::new();
    for item in items {
        parts.push(load_chunk(item, data_type)?);
    }
    Ok(concat_loaded(parts, data_type))
}

#[test]
fn empty_int8_job_loads_an_empty_array() {
    assert_eq!(load_arrays(vec![], DataType::Int8), Ok(LoadedData::Int8(vec![])));
}

#[test]
fn empty_utf8_job_loads_an_empty_array() {
    assert_eq!(load_arrays(vec![], DataType::Utf8Str), Ok(LoadedData::Utf8Str(vec![])));
}

#[test]
fn int8_chunks_of_several_files_are_concatenated_in_job_order() {
    let items =
        vec![read("b.bin", 8, &[3, 4]), read("a.bin", 0, &[255]), read("b.bin", 0, &[1, 2])];
    assert_eq!(load_arrays(items, DataType::Int8), Ok(LoadedData::Int8(vec![3, 4, -1, 1, 2])));
}

#[test]
fn parallel_load_equals_the_sequential_load_for_int8() {
    let expected = sequentially(many_items(500), DataType::Int8);
    assert!(expected.is_ok());
    assert_eq!(load_arrays(many_items(500), DataType::Int8), expected);
}

#[test]
fn parallel_load_equals_the_sequential_load_for_utf8() {
    let expected = sequentially(many_items(500), DataType::Utf8Str);
    assert!(expected.is_ok());
    assert_eq!(load_arrays(many_items(500), DataType::Utf8Str), expected);
}

#[test]
fn int8_length_is_the_sum_of_the_chunk_lengths() {
    let items = many_items(300);
    let total: u64 = items.iter().map(|item| item.chunk.end_idx - item.chunk.start_idx).sum();
    match load_arrays(items, DataType::Int8) {
        Ok(LoadedData::Int8(values)) => assert_eq!(values.len() as u64, total),
        other => panic!("unexpected result: {:?}", other),
    }
}

#[test]
fn utf8_count_is_the_number_of_chunks() {
    match load_arrays(many_items(300), DataType::Utf8Str) {
        Ok(LoadedData::Utf8Str(strings)) => assert_eq!(strings.len(), 300),
        other => panic!("unexpected result: {:?}", other),
    }
}

#[test]
fn one_short_chunk_among_many_fails_the_job_with_its_error() {
    let mut items = many_items(400);
    items[137].chunk.end_idx += 1;
    let failing = items[137].chunk.clone();
    assert_eq!(
        load_arrays(items, DataType::Int8),
        Err(LoadError::ShortRead {
            path: failing.filepath,
            start: failing.start_idx,
            end: failing.end_idx
        })
    );
}

#[test]
fn one_undecodable_chunk_among_many_fails_the_job_with_its_error() {
    let mut items = many_items(400);
    items[251] = read("odd.bin", 9000, &[0xF0, 0x28, 0x8C, 0x28]);
    assert_eq!(
        load_arrays(items, DataType::Utf8Str),
        Err(LoadError::InvalidEncoding { path: "odd.bin".to_string(), start: 9000, end: 9004 })
    );
}

#[test]
fn one_failed_read_fails_the_job_with_its_cause() {
    let mut items = many_items(50);
    items[20].outcome = ReadOutcome::Failed("input/output error".to_string());
    let path = items[20].chunk.filepath.clone();
    assert_eq!(
        load_arrays(items, DataType::Int8),
        Err(LoadError::Io { path, cause: "input/output error".to_string() })
    );
}

#[test]
fn with_several_failures_the_error_is_that_of_one_of_them() {
    let mut items = many_items(200);
    items[10].outcome = ReadOutcome::Failed("first".to_string());
    items[150].outcome = ReadOutcome::Failed("second".to_string());
    let first =
        LoadError::Io { path: items[10].chunk.filepath.clone(), cause: "first".to_string() };
    let second =
        LoadError::Io { path: items[150].chunk.filepath.clone(), cause: "second".to_string() };
    let got = load_arrays(items, DataType::Int8).unwrap_err();
    assert!(got == first || got == second);
}

#[test]
fn inverted_range_fails_the_job_as_invalid_before_other_errors() {
    let mut items = many_items(100);
    items[3].outcome = ReadOutcome::Failed("unreadable".to_string());
    items[60].chunk.start_idx = items[60].chunk.end_idx + 1;
    assert!(any_inverted_range(&items));
    assert_eq!(load_arrays(items, DataType::Int8), Err(LoadError::InvalidJobSpec));
}

#[test]
fn valid_ranges_are_not_reported_as_inverted() {
    assert!(!any_inverted_range(&many_items(20)));
    assert!(!any_inverted_range(&vec![]));
}

#[test]
fn zero_length_chunks_add_nothing_to_int8_and_an_empty_string_to_utf8() {
    let items = vec![read("a.bin", 0, b"ab"), read("a.bin", 2, b""), read("a.bin", 2, b"c")];
    assert_eq!(
        load_arrays(items.clone(), DataType::Int8),
        Ok(LoadedData::Int8(vec![97, 98, 99]))
    );
    assert_eq!(
        load_arrays(items, DataType::Utf8Str),
        Ok(LoadedData::Utf8Str(vec!["ab".to_string(), String::new(), "c".to_string()]))
    );
}

#[test]
fn concat_keeps_the_order_of_the_parts() {
    let parts = vec![
        LoadedData::Int8(vec![1, 2]),
        LoadedData::Int8(vec![]),
        LoadedData::Int8(vec![-3]),
    ];
    assert_eq!(concat_loaded(parts, DataType::Int8), LoadedData::Int8(vec![1, 2, -3]));
    let parts = vec![
        LoadedData::Utf8Str(vec!["x".to_string(), "y".to_string()]),
        LoadedData::Utf8Str(vec!["z".to_string()]),
    ];
    assert_eq!(
        concat_loaded(parts, DataType::Utf8Str),
        LoadedData::Utf8Str(vec!["x".to_string(), "y".to_string(), "z".to_string()])
    );
}

#[test]
fn concat_passes_over_parts_of_the_other_type() {
    let parts = vec![
        LoadedData::Int8(vec![1]),
        LoadedData::Utf8Str(vec!["text".to_string()]),
        LoadedData::Int8(vec![2]),
    ];
    assert_eq!(concat_loaded(parts.clone(), DataType::Int8), LoadedData::Int8(vec![1, 2]));
    assert_eq!(
        concat_loaded(parts, DataType::Utf8Str),
        LoadedData::Utf8Str(vec!["text".to_string()])
    );
}

#[test]
fn concat_of_nothing_is_empty_of_the_asked_type() {
    assert_eq!(concat_loaded(vec![], DataType::Int8), LoadedData::Int8(vec![]));
    assert_eq!(concat_loaded(vec![], DataType::Utf8Str), LoadedData::Utf8Str(vec![]));
}

#[test]
fn reassembly_concatenates_what_the_workers_brought() {
    let loaded = Ok(vec![LoadedData::Int8(vec![5]), LoadedData::Int8(vec![6, 7])]);
    assert_eq!(reassemble_loaded(loaded, DataType::Int8), Ok(LoadedData::Int8(vec![5, 6, 7])));
}

#[test]
fn reassembly_hands_an_error_on_as_it_is() {
    let e = LoadError::ShortRead { path: "a.bin".to_string(), start: 1, end: 9 };
    assert_eq!(reassemble_loaded(Err(e.clone()), DataType::Int8), Err(e.clone()));
    assert_eq!(reassemble_loaded(Err(e.clone()), DataType::Utf8Str), Err(e));
}

#[test]
fn job_splits_into_front_and_back() {
    let all = many_items(90);
    let front: Vec<ChunkRead> = all[..40].to_vec();
    let back: Vec<ChunkRead> = all[40..].to_vec();
    let whole = load_arrays(all, DataType::Int8).unwrap();
    let parts = vec![
        load_arrays(front, DataType::Int8).unwrap(),
        load_arrays(back, DataType::Int8).unwrap(),
    ];
    assert_eq!(concat_loaded(parts, DataType::Int8), whole);
}
