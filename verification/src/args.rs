//! Job descriptions in words: an element type, `int8` or `utf8`, then the
//! chunks of the job, each as a file path, a start offset and an end offset.

use crate::model::{
    chunk_views, string_views, ChunkInfo, ChunkView, DataType, ErrorView, Job, JobView,
    LoadError,
};
use vstd::prelude::*;
use vstd::string::*;
use vstd::utf8::{is_ascii_chars, is_ascii_chars_encode_utf8};

verus! {

/// The byte that writes `+`.
const PLUS: u8 = 43;

/// The byte that writes the digit `0`.
const DIGIT_0: u8 = 48;

/// The byte that writes the digit `9`.
const DIGIT_9: u8 = 57;

/// The element type that a word names.
pub open spec fn token_type(word: Seq<char>) -> Option<DataType> {
    if word == "int8"@ {
        Some(DataType::Int8)
    } else if word == "utf8"@ {
        Some(DataType::Utf8Str)
    } else {
        None
    }
}

/// A decimal digit.
pub open spec fn is_digit(c: char) -> bool {
    '0' <= c <= '9'
}

/// Every character is a decimal digit.
pub open spec fn all_digits(digits: Seq<char>) -> bool {
    forall|i: int| 0 <= i < digits.len() ==> is_digit(#[trigger] digits[i])
}

/// The number that a digit stands for.
pub open spec fn digit_value(c: char) -> nat {
    if is_digit(c) {
        (c as int - '0' as int) as nat
    } else {
        0
    }
}

/// The number that the digits write in base ten.
pub open spec fn digits_value(digits: Seq<char>) -> nat
    decreases digits.len(),
{
    if digits.len() == 0 {
        0
    } else {
        10 * digits_value(digits.drop_last()) + digit_value(digits.last())
    }
}

/// The word without the `+` that may stand before the digits.
pub open spec fn unsigned_part(word: Seq<char>) -> Seq<char> {
    if word.len() > 0 && word[0] == '+' {
        word.drop_first()
    } else {
        word
    }
}

/// The offset that a word writes: decimal digits, at least one, after an
/// optional `+`, with a value that fits in 64 bits.
pub open spec fn decimal_u64(word: Seq<char>) -> Option<u64> {
    let digits = unsigned_part(word);
    if digits.len() > 0 && all_digits(digits) && digits_value(digits) <= u64::MAX {
        Some(digits_value(digits) as u64)
    } else {
        None
    }
}

/// The chunk that three words describe: a path and two offsets that are not
/// inverted.
pub open spec fn chunk_of(path: Seq<char>, start: Seq<char>, end: Seq<char>) -> Option<
    ChunkView,
> {
    match (decimal_u64(start), decimal_u64(end)) {
        (Some(start_idx), Some(end_idx)) => if start_idx <= end_idx {
            Some(ChunkView { filepath: path, start_idx, end_idx })
        } else {
            None
        },
        _ => None,
    }
}

/// The chunks that the words from `i` on describe, up to the next element
/// type or to where fewer than three words are left, and the index of the word
/// after them. `None` where one of them is malformed.
pub open spec fn chunk_run(words: Seq<Seq<char>>, i: int) -> Option<(Seq<ChunkView>, int)>
    decreases words.len() - i,
{
    if 0 <= i && i + 3 <= words.len() && token_type(words[i]) is None {
        match (chunk_of(words[i], words[i + 1], words[i + 2]), chunk_run(words, i + 3)) {
            (Some(chunk), Some((rest, end))) => Some((seq![chunk] + rest, end)),
            _ => None,
        }
    } else {
        Some((Seq::empty(), i))
    }
}

/// The jobs that the words from `i` on describe: each an element type and
/// the chunks after it. `None` where a job does not start with an element
/// type or a chunk is malformed.
pub open spec fn jobs_from(words: Seq<Seq<char>>, i: int) -> Option<Seq<JobView>>
    decreases words.len() - i,
{
    if i < 0 || i >= words.len() {
        Some(Seq::empty())
    } else {
        match token_type(words[i]) {
            None => None,
            Some(data_type) => match chunk_run(words, i + 1) {
                None => None,
                Some((chunks, end)) => {
                    proof {
                        lemma_chunk_run_end(words, i + 1);
                    }
                    match jobs_from(words, end) {
                        None => None,
                        Some(rest) => Some(seq![JobView { data_type, chunks }] + rest),
                    }
                },
            },
        }
    }
}

/// The jobs that a command line describes. Its first word is the program's
/// name and describes nothing.
pub open spec fn parsed_jobs(words: Seq<Seq<char>>) -> Option<Seq<JobView>> {
    jobs_from(words, 1)
}

/// The views of the jobs, in order.
pub open spec fn job_views(jobs: Seq<Job>) -> Seq<JobView> {
    Seq::new(jobs.len(), |i: int| jobs[i]@)
}

/// No chunk of the jobs has an inverted range.
pub open spec fn all_ranges_valid(jobs: Seq<JobView>) -> bool {
    forall|j: int, k: int|
        0 <= j < jobs.len() && 0 <= k < jobs[j].chunks.len()
            ==> (#[trigger] jobs[j].chunks[k]).is_valid()
}

/// What is left to read of a run of chunks, after the chunks read so far.
spec fn with_chunks_before(before: Seq<ChunkView>, run: Option<(Seq<ChunkView>, int)>) -> Option<
    (Seq<ChunkView>, int),
> {
    match run {
        Some((rest, end)) => Some((before + rest, end)),
        None => None,
    }
}

/// What is left to read of the jobs, after the jobs read so far.
spec fn with_jobs_before(before: Seq<JobView>, jobs: Option<Seq<JobView>>) -> Option<
    Seq<JobView>,
> {
    match jobs {
        Some(rest) => Some(before + rest),
        None => None,
    }
}

impl DataType {
    /// The element type that the word names: `int8` or `utf8`.
    pub fn from_token(word: &str) -> (res: Option<DataType>)
        ensures
            res == token_type(word@),
    {
        proof {
            reveal_strlit("int8");
            reveal_strlit("utf8");
        }
        if word.unicode_len() != 4 {
            return None;
        }
        let c0 = word.get_char(0);
        let c1 = word.get_char(1);
        let c2 = word.get_char(2);
        let c3 = word.get_char(3);
        if c0 == 'i' && c1 == 'n' && c2 == 't' && c3 == '8' {
            assert(word@ =~= "int8"@);
            Some(DataType::Int8)
        } else if c0 == 'u' && c1 == 't' && c2 == 'f' && c3 == '8' {
            assert(word@ =~= "utf8"@);
            Some(DataType::Utf8Str)
        } else {
            None
        }
    }
}

/// Reads an offset: decimal digits after an optional `+`. `None` for any
/// other word, the empty one too, and for a number that does not fit in 64
/// bits.
pub fn parse_u64(word: &str) -> (res: Option<u64>)
    ensures
        res == decimal_u64(word@),
{
    let ghost chars = word@;
    if !word.is_ascii() {
        proof {
            let i = choose|i: int|
                0 <= i < chars.len() && !('\0' <= #[trigger] chars[i] <= '\u{7f}');
            if i > 0 && chars[0] == '+' {
                assert(chars.drop_first()[i - 1] == chars[i]);
            }
        }
        return None;
    }
    let bytes = word.as_bytes();
    proof {
        is_ascii_chars_encode_utf8(chars);
    }
    let n = bytes.len();
    let mut i: usize = 0;
    if n > 0 && bytes[0] == PLUS {
        i = 1;
    }
    let start = i;
    let ghost digits = chars.skip(start as int);
    if i == n {
        return None;
    }
    let mut value: u64 = 0;
    while i < n
        invariant
            start <= i <= n,
            n == bytes@.len(),
            chars == word@,
            n == chars.len(),
            is_ascii_chars(chars),
            forall|j: int| 0 <= j < n ==> #[trigger] bytes@[j] == chars[j] as u8,
            digits == chars.skip(start as int),
            digits == unsigned_part(chars),
            all_digits(digits.take(i - start)),
            value == digits_value(digits.take(i - start)),
        decreases n - i,
    {
        let b = bytes[i];
        let ghost k = i - start;
        assert(is_digit(digits[k]) <==> DIGIT_0 <= b <= DIGIT_9);
        if b < DIGIT_0 || b > DIGIT_9 {
            return None;
        }
        let d: u64 = (b - DIGIT_0) as u64;
        proof {
            assert(digits.take(k + 1).drop_last() == digits.take(k));
            lemma_digits_value_prefix(digits, k + 1);
        }
        let shifted = match value.checked_mul(10) {
            Some(v) => v,
            None => {
                return None;
            },
        };
        value = match shifted.checked_add(d) {
            Some(v) => v,
            None => {
                return None;
            },
        };
        i += 1;
    }
    assert(digits.take(i - start) == digits);
    Some(value)
}

/// Reads the chunk that three words describe.
pub fn parse_chunk(path: &String, start: &str, end: &str) -> (res: Option<ChunkInfo>)
    ensures
        match chunk_of(path@, start@, end@) {
            Some(chunk) => res is Some && res->Some_0@ == chunk,
            None => res is None,
        },
{
    let start_idx = match parse_u64(start) {
        Some(offset) => offset,
        None => {
            return None;
        },
    };
    let end_idx = match parse_u64(end) {
        Some(offset) => offset,
        None => {
            return None;
        },
    };
    match ChunkInfo::new(path.clone(), start_idx, end_idx) {
        Ok(chunk) => Some(chunk),
        Err(_) => None,
    }
}

/// Reads the chunks of one job: the words from `from` on, three by three, up
/// to the next element type or to where fewer than three words are left.
/// Returns the chunks and the index of the word after them.
pub fn parse_chunk_run(args: &Vec<String>, from: usize) -> (res: Option<(Vec<ChunkInfo>, usize)>)
    ensures
        match chunk_run(string_views(args@), from as int) {
            Some((chunks, end)) => res is Some && chunk_views(res->Some_0.0@) == chunks
                && res->Some_0.1 == end,
            None => res is None,
        },
{
    let ghost words = string_views(args@);
    let n = args.len();
    let mut chunks: Vec<ChunkInfo> = Vec::new();
    let mut i = from;
    while i < n && n - i >= 3
        invariant
            n == args.len(),
            words == string_views(args@),
            from <= i,
            chunk_run(words, from as int) == with_chunks_before(
                chunk_views(chunks@),
                chunk_run(words, i as int),
            ),
        decreases n - i,
    {
        if DataType::from_token(args[i].as_str()).is_some() {
            return Some((chunks, i));
        }
        match parse_chunk(&args[i], args[i + 1].as_str(), args[i + 2].as_str()) {
            None => {
                return None;
            },
            Some(chunk) => {
                chunks.push(chunk);
            },
        }
        i += 3;
    }
    Some((chunks, i))
}

/// Reads the jobs that a command line describes. The first word is the
/// program's name and is passed over. Each job is an element type, `int8` or
/// `utf8`, followed by its chunks, three words each: the file path, the start
/// offset and the end offset.
///
/// The command line is rejected as a whole where a job does not start with an
/// element type, an offset is no number, or a range is inverted.
pub fn parse_args(args: &Vec<String>) -> (res: Result<Vec<Job>, LoadError>)
    ensures
        match parsed_jobs(string_views(args@)) {
            Some(jobs) => res is Ok && job_views(res->Ok_0@) == jobs,
            None => res is Err && res->Err_0@ == ErrorView::InvalidJobSpec,
        },
        res matches Ok(jobs) ==> all_ranges_valid(job_views(jobs@)),
{
    let ghost words = string_views(args@);
    proof {
        lemma_parsed_ranges_valid(words, 1);
    }
    let n = args.len();
    let mut jobs: Vec<Job> = Vec::new();
    let mut i: usize = 1;
    while i < n
        invariant
            n == args.len(),
            words == string_views(args@),
            1 <= i,
            parsed_jobs(words) == with_jobs_before(job_views(jobs@), jobs_from(words, i as int)),
        decreases n - i,
    {
        let data_type = match DataType::from_token(args[i].as_str()) {
            Some(data_type) => data_type,
            None => {
                return Err(LoadError::InvalidJobSpec);
            },
        };
        proof {
            lemma_chunk_run_end(words, i + 1);
        }
        match parse_chunk_run(args, i + 1) {
            None => {
                return Err(LoadError::InvalidJobSpec);
            },
            Some((chunks, end)) => {
                jobs.push(Job { data_type, chunks });
                i = end;
            },
        }
    }
    Ok(jobs)
}

/// A run of chunks ends at or after the word it starts at, and within the
/// words where it starts within them.
pub proof fn lemma_chunk_run_end(words: Seq<Seq<char>>, i: int)
    ensures
        chunk_run(words, i) matches Some((_, end)) ==> i <= end && (i <= words.len() ==> end
            <= words.len()),
    decreases words.len() - i,
{
    if 0 <= i && i + 3 <= words.len() && token_type(words[i]) is None {
        lemma_chunk_run_end(words, i + 3);
    }
}

/// The digits of a number's front write no more than all its digits.
proof fn lemma_digits_value_prefix(digits: Seq<char>, k: int)
    requires
        0 <= k <= digits.len(),
    ensures
        digits_value(digits.take(k)) <= digits_value(digits),
    decreases digits.len(),
{
    if k < digits.len() {
        assert(digits.drop_last().take(k) == digits.take(k));
        lemma_digits_value_prefix(digits.drop_last(), k);
    } else {
        assert(digits.take(k) == digits);
    }
}

/// The chunks of one run have no inverted range.
proof fn lemma_chunk_run_valid(words: Seq<Seq<char>>, i: int)
    ensures
        chunk_run(words, i) matches Some((chunks, _)) ==> forall|k: int|
            0 <= k < chunks.len() ==> (#[trigger] chunks[k]).is_valid(),
    decreases words.len() - i,
{
    if 0 <= i && i + 3 <= words.len() && token_type(words[i]) is None {
        lemma_chunk_run_valid(words, i + 3);
    }
}

/// The chunks of the jobs that a command line describes have no inverted
/// range.
pub proof fn lemma_parsed_ranges_valid(words: Seq<Seq<char>>, i: int)
    ensures
        jobs_from(words, i) matches Some(jobs) ==> all_ranges_valid(jobs),
    decreases words.len() - i,
{
    if 0 <= i < words.len() && jobs_from(words, i) is Some {
        lemma_chunk_run_end(words, i + 1);
        lemma_chunk_run_valid(words, i + 1);
        lemma_parsed_ranges_valid(words, chunk_run(words, i + 1)->Some_0.1);
    }
}

} // verus!
