use load_data::{summarize, LoadedData, Summary, PREVIEW_LEN};

fn strings(n: usize) -> Vec<String> {
    (0..n).map(|i| format!("s{}", i)).collect()
}

#[test]
fn preview_shows_five_strings() {
    assert_eq!(PREVIEW_LEN, 5);
}

#[test]
fn summary_of_signed_bytes_is_their_count() {
    assert_eq!(
        summarize(&LoadedData::Int8(vec![1, -2, 3])),
        Summary { count: 3, preview: vec![], more: false }
    );
    assert_eq!(
        summarize(&LoadedData::Int8(vec![0; 1000])),
        Summary { count: 1000, preview: vec![], more: false }
    );
}

#[test]
fn summary_of_nothing_is_empty() {
    assert_eq!(
        summarize(&LoadedData::Int8(vec![])),
        Summary { count: 0, preview: vec![], more: false }
    );
    assert_eq!(
        summarize(&LoadedData::Utf8Str(vec![])),
        Summary { count: 0, preview: vec![], more: false }
    );
}

#[test]
fn summary_of_few_strings_shows_them_all() {
    assert_eq!(
        summarize(&LoadedData::Utf8Str(strings(3))),
        Summary { count: 3, preview: strings(3), more: false }
    );
}

#[test]
fn summary_of_five_strings_shows_them_all_and_no_mark() {
    assert_eq!(
        summarize(&LoadedData::Utf8Str(strings(5))),
        Summary { count: 5, preview: strings(5), more: false }
    );
}

#[test]
fn summary_of_many_strings_shows_the_first_five_and_a_mark() {
    assert_eq!(
        summarize(&LoadedData::Utf8Str(strings(6))),
        Summary { count: 6, preview: strings(5), more: true }
    );
    assert_eq!(
        summarize(&LoadedData::Utf8Str(strings(40))),
        Summary { count: 40, preview: strings(5), more: true }
    );
}
