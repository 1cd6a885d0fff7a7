//! A whole job: every chunk loaded, by any number of workers in any order,
//! and the decoded chunks concatenated in the order of the job.

use crate::decode::{chunk_outcome, fails_with, load_chunk, loads_to};
use crate::model::{
    string_views, ChunkRead, ChunkReadView, ChunkView, DataType, ErrorView, LoadError,
    LoadedData, LoadedView,
};
use rayon::iter::{IntoParallelIterator, ParallelIterator};
use vstd::prelude::*;

verus! {

/// The views of the work items, in order.
pub open spec fn item_views(items: Seq<ChunkRead>) -> Seq<ChunkReadView> {
    Seq::new(items.len(), |i: int| items[i]@)
}

/// The views of the decoded chunks, in order.
pub open spec fn part_views(parts: Seq<LoadedData>) -> Seq<LoadedView> {
    Seq::new(parts.len(), |i: int| parts[i]@)
}

/// The parts one after the other, as one array of the given element type.
pub open spec fn concatenated(parts: Seq<LoadedView>, data_type: DataType) -> LoadedView
    decreases parts.len(),
{
    if parts.len() == 0 {
        LoadedView::empty(data_type)
    } else {
        concatenated(parts.drop_last(), data_type).append(parts.last())
    }
}

/// Some chunk of the job has an inverted range.
pub open spec fn has_inverted_range(items: Seq<ChunkReadView>) -> bool {
    exists|i: int| 0 <= i < items.len() && !(#[trigger] items[i]).chunk.is_valid()
}

/// The chunks loaded one after the other in the order of the job: the
/// concatenation of what they decode to, or the error of the first chunk that
/// fails.
pub open spec fn sequential_outcome(items: Seq<ChunkReadView>, data_type: DataType) -> Result<
    LoadedView,
    ErrorView,
>
    decreases items.len(),
{
    if items.len() == 0 {
        Ok(LoadedView::empty(data_type))
    } else {
        match sequential_outcome(items.drop_last(), data_type) {
            Err(e) => Err(e),
            Ok(loaded) => match chunk_outcome(items.last(), data_type) {
                Err(e) => Err(e),
                Ok(part) => Ok(loaded.append(part)),
            },
        }
    }
}

/// The result that a job owes: rejected as invalid where a chunk has an
/// inverted range, before anything is loaded; else what loading the chunks one
/// after the other gives.
pub open spec fn job_outcome(items: Seq<ChunkReadView>, data_type: DataType) -> Result<
    LoadedView,
    ErrorView,
> {
    if has_inverted_range(items) {
        Err(ErrorView::InvalidJobSpec)
    } else {
        sequential_outcome(items, data_type)
    }
}

/// The error is that of one of the job's chunks.
pub open spec fn is_chunk_failure(
    items: Seq<ChunkReadView>,
    data_type: DataType,
    e: ErrorView,
) -> bool {
    exists|i: int| 0 <= i < items.len() && #[trigger] fails_with(items[i], data_type, e)
}

/// The error names the chunk: its file, and its byte range where the error
/// carries one. An invalid job names a chunk by its inverted range.
pub open spec fn names_chunk(e: ErrorView, chunk: ChunkView) -> bool {
    match e {
        ErrorView::ShortRead { path, start, end } => path == chunk.filepath && start
            == chunk.start_idx && end == chunk.end_idx,
        ErrorView::InvalidEncoding { path, start, end } => path == chunk.filepath && start
            == chunk.start_idx && end == chunk.end_idx,
        ErrorView::Io { path, cause } => path == chunk.filepath,
        ErrorView::InvalidJobSpec => !chunk.is_valid(),
        ErrorView::FileOpen { path } => false,
    }
}

/// No chunk but the one at `i` fails.
pub open spec fn fails_alone(items: Seq<ChunkReadView>, data_type: DataType, i: int) -> bool {
    forall|j: int|
        0 <= j < items.len() && j != i ==> (#[trigger] chunk_outcome(items[j], data_type)) is Ok
}

/// The sum of `end_idx - start_idx` over the chunks of a job.
pub open spec fn total_byte_len(items: Seq<ChunkReadView>) -> int
    decreases items.len(),
{
    if items.len() == 0 {
        0
    } else {
        total_byte_len(items.drop_last()) + (items.last().chunk.end_idx
            - items.last().chunk.start_idx)
    }
}

/// Concatenates decoded chunks in their order. A part of another element type
/// than `data_type` adds nothing.
pub fn concat_loaded(parts: Vec<LoadedData>, data_type: DataType) -> (res: LoadedData)
    ensures
        res@ == concatenated(part_views(parts@), data_type),
{
    let ghost all = part_views(parts@);
    match data_type {
        DataType::Int8 => {
            let mut values: Vec<i8> = Vec::new();
            for part in it: parts.into_iter()
                invariant
                    it.seq() == parts@,
                    all == part_views(parts@),
                    LoadedView::Int8(values@) == concatenated(all.take(it.index()), data_type),
                    data_type == DataType::Int8,
            {
                proof {
                    let k = it.index();
                    assert(all.take(k + 1).drop_last() == all.take(k));
                }
                match part {
                    LoadedData::Int8(mut v) => {
                        values.append(&mut v);
                    },
                    LoadedData::Utf8Str(_) => {},
                }
            }
            assert(all.take(parts@.len() as int) == all);
            LoadedData::Int8(values)
        },
        DataType::Utf8Str => {
            let mut strings: Vec<String> = Vec::new();
            assert(string_views(strings@) =~= Seq::empty());
            for part in it: parts.into_iter()
                invariant
                    it.seq() == parts@,
                    all == part_views(parts@),
                    LoadedView::Utf8Str(string_views(strings@)) == concatenated(
                        all.take(it.index()),
                        data_type,
                    ),
                    data_type == DataType::Utf8Str,
            {
                let ghost before = strings@;
                proof {
                    let k = it.index();
                    assert(all.take(k + 1).drop_last() == all.take(k));
                }
                match part {
                    LoadedData::Int8(_) => {},
                    LoadedData::Utf8Str(mut v) => {
                        let ghost added = v@;
                        strings.append(&mut v);
                        assert(string_views(strings@) =~= string_views(before) + string_views(
                            added,
                        ));
                    },
                }
            }
            assert(all.take(parts@.len() as int) == all);
            LoadedData::Utf8Str(strings)
        },
    }
}

/// Makes the job's result of what the workers brought: the decoded chunks
/// concatenated in their order, or the error as it is, with nothing of an
/// array beside it.
pub fn reassemble_loaded(loaded: Result<Vec<LoadedData>, LoadError>, data_type: DataType) -> (res:
    Result<LoadedData, LoadError>)
    ensures
        match loaded {
            Ok(parts) => res is Ok && res->Ok_0@ == concatenated(part_views(parts@), data_type),
            Err(e) => res is Err && res->Err_0 == e,
        },
{
    match loaded {
        Ok(parts) => Ok(concat_loaded(parts, data_type)),
        Err(e) => Err(e),
    }
}

/// Hands the work items out to `rayon`'s worker threads, each to one call of
/// [`load_chunk`], through `into_par_iter`, `map` and `collect`. Collecting
/// into a `Result` gives the items' results in the order of the items where
/// every call succeeded, and else the error of one of the calls that failed:
/// which one, where several did, `rayon` leaves open.
#[verifier::external_body]
fn load_chunks_parallel(items: Vec<ChunkRead>, data_type: DataType) -> (res: Result<
    Vec<LoadedData>,
    LoadError,
>)
    ensures
        match res {
            Ok(parts) => parts@.len() == items@.len() && forall|i: int|
                0 <= i < items@.len() ==> loads_to(items@[i]@, data_type, #[trigger] parts@[i]@),
            Err(e) => exists|i: int|
                0 <= i < items@.len() && #[trigger] fails_with(items@[i]@, data_type, e@),
        },
{
    items.into_par_iter().map(|item| load_chunk(item, data_type)).collect()
}

/// Whether some chunk of the job has an inverted range.
pub fn any_inverted_range(items: &Vec<ChunkRead>) -> (res: bool)
    ensures
        res == has_inverted_range(item_views(items@)),
{
    let mut i: usize = 0;
    while i < items.len()
        invariant
            i <= items.len(),
            forall|j: int| 0 <= j < i ==> (#[trigger] item_views(items@)[j]).chunk.is_valid(),
        decreases items.len() - i,
    {
        if !items[i].chunk.is_valid() {
            assert(!item_views(items@)[i as int].chunk.is_valid());
            return true;
        }
        i += 1;
    }
    false
}

/// Loads a job: every chunk is checked and decoded, on any number of workers
/// and in any order, and the decoded chunks are concatenated in the order of
/// the job.
///
/// The job succeeds exactly where loading the chunks one after the other
/// would, and with the same array. Where it fails, the error is that of one of
/// its chunks, and nothing of the array is returned; a job with an inverted
/// range fails as invalid before any chunk is decoded.
pub fn load_arrays(items: Vec<ChunkRead>, data_type: DataType) -> (res: Result<
    LoadedData,
    LoadError,
>)
    ensures
        match job_outcome(item_views(items@), data_type) {
            Ok(data) => res is Ok && res->Ok_0@ == data,
            Err(_) => res is Err && is_chunk_failure(
                item_views(items@),
                data_type,
                res->Err_0@,
            ),
        },
        has_inverted_range(item_views(items@)) ==> res is Err && res->Err_0@
            == ErrorView::InvalidJobSpec,
        res matches Ok(data) ==> data@.data_type() == data_type,
{
    let ghost views = item_views(items@);
    if any_inverted_range(&items) {
        proof {
            let i = choose|i: int| 0 <= i < views.len() && !(#[trigger] views[i]).chunk.is_valid();
            assert(fails_with(views[i], data_type, ErrorView::InvalidJobSpec));
        }
        return Err(LoadError::InvalidJobSpec);
    }
    let loaded = load_chunks_parallel(items, data_type);
    proof {
        lemma_sequential_failure(views, data_type);
        lemma_outcome_type(views, data_type);
        if loaded is Ok {
            lemma_loads_in_order(views, part_views(loaded->Ok_0@), data_type);
        } else {
            let e = loaded->Err_0@;
            let i = choose|i: int|
                0 <= i < views.len() && #[trigger] fails_with(items@[i]@, data_type, e);
            assert(fails_with(views[i], data_type, e));
        }
    }
    reassemble_loaded(loaded, data_type)
}

/// Order is kept: where every chunk loads, the job is owed the concatenation
/// of what the chunks decode to, in the order of the job, whatever the order
/// in which they were decoded.
pub proof fn lemma_loads_in_order(
    items: Seq<ChunkReadView>,
    parts: Seq<LoadedView>,
    data_type: DataType,
)
    requires
        parts.len() == items.len(),
        forall|i: int| 0 <= i < items.len() ==> loads_to(#[trigger] items[i], data_type, parts[i]),
    ensures
        sequential_outcome(items, data_type) == Ok::<LoadedView, ErrorView>(
            concatenated(parts, data_type),
        ),
        job_outcome(items, data_type) == sequential_outcome(items, data_type),
    decreases items.len(),
{
    if items.len() > 0 {
        lemma_loads_in_order(items.drop_last(), parts.drop_last(), data_type);
    }
    if has_inverted_range(items) {
        let i = choose|i: int| 0 <= i < items.len() && !(#[trigger] items[i]).chunk.is_valid();
        assert(loads_to(items[i], data_type, parts[i]));
    }
}

/// Where the chunks one after the other fail, the error is that of one of
/// them; where they do not, every chunk loads.
proof fn lemma_sequential_failure(items: Seq<ChunkReadView>, data_type: DataType)
    ensures
        match sequential_outcome(items, data_type) {
            Err(e) => is_chunk_failure(items, data_type, e),
            Ok(_) => forall|i: int|
                0 <= i < items.len() ==> (#[trigger] chunk_outcome(items[i], data_type)) is Ok,
        },
    decreases items.len(),
{
    if items.len() > 0 {
        let front = items.drop_last();
        lemma_sequential_failure(front, data_type);
        match sequential_outcome(front, data_type) {
            Err(e) => {
                let i = choose|i: int|
                    0 <= i < front.len() && #[trigger] fails_with(front[i], data_type, e);
                assert(fails_with(items[i], data_type, e));
            },
            Ok(_) => {
                assert forall|j: int| 0 <= j < front.len() implies (#[trigger] chunk_outcome(
                    items[j],
                    data_type,
                )) is Ok by {
                    assert(items[j] == front[j]);
                }
                if chunk_outcome(items.last(), data_type) is Err {
                    let e = chunk_outcome(items.last(), data_type)->Err_0;
                    assert(fails_with(items[items.len() - 1], data_type, e));
                }
            },
        }
    }
}

/// A part of a job that is owed an array is owed one too: what its chunks
/// load one after the other.
proof fn lemma_part_of_loaded_job(
    items: Seq<ChunkReadView>,
    data_type: DataType,
    from: int,
    to: int,
)
    requires
        job_outcome(items, data_type) is Ok,
        0 <= from <= to <= items.len(),
    ensures
        job_outcome(items.subrange(from, to), data_type) is Ok,
        job_outcome(items.subrange(from, to), data_type) == sequential_outcome(
            items.subrange(from, to),
            data_type,
        ),
{
    let part = items.subrange(from, to);
    lemma_sequential_failure(items, data_type);
    lemma_sequential_failure(part, data_type);
    assert forall|i: int| 0 <= i < part.len() implies (#[trigger] chunk_outcome(
        part[i],
        data_type,
    )) is Ok by {
        assert(part[i] == items[from + i]);
    }
    if has_inverted_range(part) {
        let i = choose|i: int| 0 <= i < part.len() && !(#[trigger] part[i]).chunk.is_valid();
        assert(chunk_outcome(part[i], data_type) is Err);
    }
    if sequential_outcome(part, data_type) is Err {
        let e = sequential_outcome(part, data_type)->Err_0;
        let i = choose|i: int| 0 <= i < part.len() && #[trigger] fails_with(part[i], data_type, e);
        assert(chunk_outcome(part[i], data_type) is Err);
    }
}

/// What a chunk decodes to, and what a job loads, is of the element type that
/// was asked for: signed bytes and strings never mix.
pub proof fn lemma_outcome_type(items: Seq<ChunkReadView>, data_type: DataType)
    ensures
        forall|i: int|
            0 <= i < items.len() ==> (#[trigger] chunk_outcome(items[i], data_type) matches Ok(
                part,
            ) ==> part.data_type() == data_type),
        sequential_outcome(items, data_type) matches Ok(data) ==> data.data_type() == data_type,
        job_outcome(items, data_type) matches Ok(data) ==> data.data_type() == data_type,
    decreases items.len(),
{
    if items.len() > 0 {
        lemma_outcome_type(items.drop_last(), data_type);
    }
}

/// What a job loads is what its first chunks load, followed by what the
/// chunks after them load: the elements of a chunk stand before those of
/// every later chunk.
pub proof fn lemma_front_then_back(
    front: Seq<ChunkReadView>,
    back: Seq<ChunkReadView>,
    data_type: DataType,
)
    requires
        job_outcome(front + back, data_type) is Ok,
    ensures
        job_outcome(front, data_type) is Ok,
        job_outcome(back, data_type) is Ok,
        job_outcome(front + back, data_type)->Ok_0 == job_outcome(front, data_type)->Ok_0.append(
            job_outcome(back, data_type)->Ok_0,
        ),
    decreases back.len(),
{
    let all = front + back;
    assert(all.subrange(0, front.len() as int) == front);
    assert(all.subrange(front.len() as int, all.len() as int) == back);
    lemma_part_of_loaded_job(all, data_type, 0, front.len() as int);
    lemma_part_of_loaded_job(all, data_type, front.len() as int, all.len() as int);
    if back.len() == 0 {
        lemma_outcome_type(front, data_type);
        match sequential_outcome(front, data_type)->Ok_0 {
            LoadedView::Int8(a) => assert(a + Seq::<i8>::empty() == a),
            LoadedView::Utf8Str(a) => assert(a + Seq::<Seq<char>>::empty() == a),
        }
    } else {
        let shorter = front + back.drop_last();
        assert(all.subrange(0, all.len() - 1) == shorter);
        lemma_part_of_loaded_job(all, data_type, 0, all.len() - 1);
        lemma_front_then_back(front, back.drop_last(), data_type);
        lemma_outcome_type(front, data_type);
        lemma_outcome_type(back, data_type);
        let a = sequential_outcome(front, data_type)->Ok_0;
        let b = sequential_outcome(back.drop_last(), data_type)->Ok_0;
        let c = chunk_outcome(back.last(), data_type)->Ok_0;
        match (a, b, c) {
            (LoadedView::Int8(x), LoadedView::Int8(y), LoadedView::Int8(z)) => assert((x + y) + z
                == x + (y + z)),
            (LoadedView::Utf8Str(x), LoadedView::Utf8Str(y), LoadedView::Utf8Str(z)) => assert((x
                + y) + z == x + (y + z)),
            _ => {},
        }
    }
}

/// A job of signed bytes that loads has as many elements as its chunks ask
/// for bytes: the sum of `end_idx - start_idx` over the chunks.
pub proof fn lemma_int8_length(items: Seq<ChunkReadView>)
    requires
        job_outcome(items, DataType::Int8) is Ok,
    ensures
        job_outcome(items, DataType::Int8)->Ok_0 is Int8,
        job_outcome(items, DataType::Int8)->Ok_0.len() == total_byte_len(items),
    decreases items.len(),
{
    if items.len() > 0 {
        lemma_part_of_loaded_job(items, DataType::Int8, 0, items.len() - 1);
        lemma_int8_length(items.drop_last());
        lemma_outcome_type(items, DataType::Int8);
        lemma_outcome_type(items.drop_last(), DataType::Int8);
    }
}

/// A job of strings that loads has as many elements as it has chunks: each
/// chunk is one string.
pub proof fn lemma_utf8_count(items: Seq<ChunkReadView>)
    requires
        job_outcome(items, DataType::Utf8Str) is Ok,
    ensures
        job_outcome(items, DataType::Utf8Str)->Ok_0 is Utf8Str,
        job_outcome(items, DataType::Utf8Str)->Ok_0.len() == items.len(),
    decreases items.len(),
{
    if items.len() > 0 {
        lemma_part_of_loaded_job(items, DataType::Utf8Str, 0, items.len() - 1);
        lemma_utf8_count(items.drop_last());
        lemma_outcome_type(items, DataType::Utf8Str);
        lemma_outcome_type(items.drop_last(), DataType::Utf8Str);
    }
}

/// One chunk that cannot be read or decoded fails the whole job: no array is
/// owed, and the error that [`load_arrays`] may report is that of a chunk that
/// failed, and names that chunk. Where no other chunk fails, it is the error
/// of this chunk.
pub proof fn lemma_fail_fast(items: Seq<ChunkReadView>, data_type: DataType, i: int)
    requires
        0 <= i < items.len(),
        chunk_outcome(items[i], data_type) is Err,
    ensures
        job_outcome(items, data_type) is Err,
        forall|e: ErrorView| #[trigger]
            is_chunk_failure(items, data_type, e) ==> exists|j: int|
                0 <= j < items.len() && #[trigger] fails_with(items[j], data_type, e)
                    && names_chunk(e, items[j].chunk),
        fails_alone(items, data_type, i) ==> forall|e: ErrorView| #[trigger]
            is_chunk_failure(items, data_type, e) ==> fails_with(items[i], data_type, e)
                && names_chunk(e, items[i].chunk),
{
    lemma_sequential_failure(items, data_type);
    assert forall|e: ErrorView| #[trigger] is_chunk_failure(items, data_type, e) implies exists|
        j: int,
    |
        0 <= j < items.len() && #[trigger] fails_with(items[j], data_type, e) && names_chunk(
            e,
            items[j].chunk,
        ) by {
        let j = choose|j: int|
            0 <= j < items.len() && #[trigger] fails_with(items[j], data_type, e);
        assert(names_chunk(e, items[j].chunk));
    }
    if fails_alone(items, data_type, i) {
        assert forall|e: ErrorView| #[trigger]
            is_chunk_failure(items, data_type, e) implies fails_with(items[i], data_type, e)
            && names_chunk(e, items[i].chunk) by {
            let j = choose|j: int|
                0 <= j < items.len() && #[trigger] fails_with(items[j], data_type, e);
            assert(chunk_outcome(items[j], data_type) is Err);
            assert(j == i);
        }
    }
}

} // verus!
