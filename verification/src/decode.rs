//! One chunk: the completeness check on what was read, and the decoding of
//! its bytes by element type.

use crate::model::{
    string_views, ChunkInfo, ChunkRead, ChunkReadView, ChunkView, DataType, ErrorView, LoadError,
    LoadedData, LoadedView, ReadOutcome, ReadView,
};
use std::string::FromUtf8Error;
use vstd::prelude::*;
use vstd::utf8::{decode_utf8, encode_utf8, encode_utf8_decode_utf8, valid_utf8};

verus! {

/// The error that `String::from_utf8` returns. Nothing is read from it.
#[verifier::external_type_specification]
#[verifier::external_body]
pub struct ExFromUtf8Error(FromUtf8Error);

/// `String::from_utf8` succeeds exactly on valid UTF-8, and the string it
/// returns then consists of the given bytes.
pub assume_specification[ String::from_utf8 ](vec: Vec<u8>) -> (res: Result<String, FromUtf8Error>)
    ensures
        res is Ok <==> valid_utf8(vec@),
        res matches Ok(s) ==> encode_utf8(s@) == vec@,
;

/// The byte read as a two's-complement signed value: 200 is -56.
pub open spec fn byte_as_signed(b: u8) -> i8 {
    if b < 128 {
        b as i8
    } else {
        (b as int - 256) as i8
    }
}

/// Each byte read as a signed value, in order.
pub open spec fn signed_bytes(bytes: Seq<u8>) -> Seq<i8> {
    Seq::new(bytes.len(), |i: int| byte_as_signed(bytes[i]))
}

/// What the bytes of one chunk decode to: one signed element per byte, or the
/// whole chunk as one string. `None` where a string is asked for and the bytes
/// are not valid UTF-8.
pub open spec fn decoded(data_type: DataType, bytes: Seq<u8>) -> Option<LoadedView> {
    match data_type {
        DataType::Int8 => Some(LoadedView::Int8(signed_bytes(bytes))),
        DataType::Utf8Str => if valid_utf8(bytes) {
            Some(LoadedView::Utf8Str(seq![decode_utf8(bytes)]))
        } else {
            None
        },
    }
}

/// The bytes of the chunk among those that were read: the first `byte_len`
/// of them. A short read where fewer are there; an I/O error where the read
/// failed; an invalid job where the range is inverted.
pub open spec fn chunk_bytes(item: ChunkReadView) -> Result<Seq<u8>, ErrorView> {
    let chunk = item.chunk;
    if !chunk.is_valid() {
        Err(ErrorView::InvalidJobSpec)
    } else {
        match item.outcome {
            ReadView::Failed(cause) => Err(ErrorView::Io { path: chunk.filepath, cause }),
            ReadView::Data(available) => if available.len() < chunk.byte_len() {
                Err(
                    ErrorView::ShortRead {
                        path: chunk.filepath,
                        start: chunk.start_idx,
                        end: chunk.end_idx,
                    },
                )
            } else {
                Ok(available.take(chunk.byte_len() as int))
            },
        }
    }
}

/// What the bytes of the chunk decode to, or the encoding error that names
/// the chunk.
pub open spec fn chunk_decoded(chunk: ChunkView, bytes: Seq<u8>, data_type: DataType) -> Result<
    LoadedView,
    ErrorView,
> {
    match decoded(data_type, bytes) {
        Some(data) => Ok(data),
        None => Err(
            ErrorView::InvalidEncoding {
                path: chunk.filepath,
                start: chunk.start_idx,
                end: chunk.end_idx,
            },
        ),
    }
}

/// The result of loading one chunk: its decoded bytes, or the first error on
/// the way there.
pub open spec fn chunk_outcome(item: ChunkReadView, data_type: DataType) -> Result<
    LoadedView,
    ErrorView,
> {
    match chunk_bytes(item) {
        Err(e) => Err(e),
        Ok(bytes) => chunk_decoded(item.chunk, bytes, data_type),
    }
}

/// The chunk loads, and to this part.
pub open spec fn loads_to(item: ChunkReadView, data_type: DataType, part: LoadedView) -> bool {
    chunk_outcome(item, data_type) == Ok::<LoadedView, ErrorView>(part)
}

/// The chunk fails, and with this error.
pub open spec fn fails_with(item: ChunkReadView, data_type: DataType, e: ErrorView) -> bool {
    chunk_outcome(item, data_type) == Err::<LoadedView, ErrorView>(e)
}

/// The view of a load result.
pub open spec fn result_view(res: Result<LoadedData, LoadError>) -> Result<LoadedView, ErrorView> {
    match res {
        Ok(data) => Ok(data@),
        Err(e) => Err(e@),
    }
}

/// Reads a byte as a two's-complement signed value.
pub fn to_signed(b: u8) -> (res: i8)
    ensures
        res == byte_as_signed(b),
{
    let res = #[verifier::truncate] (b as i8);
    assert(res == byte_as_signed(b)) by (bit_vector)
        requires
            res == #[verifier::truncate] (b as i8),
    ;
    res
}

/// Takes the chunk's bytes out of what a positioned read brought.
pub fn read_chunk(chunk: &ChunkInfo, outcome: ReadOutcome) -> (res: Result<Vec<u8>, LoadError>)
    ensures
        match chunk_bytes((ChunkReadView { chunk: chunk@, outcome: outcome@ })) {
            Ok(bytes) => res is Ok && res->Ok_0@ == bytes,
            Err(e) => res is Err && res->Err_0@ == e,
        },
{
    if chunk.start_idx > chunk.end_idx {
        return Err(LoadError::InvalidJobSpec);
    }
    let wanted: u64 = chunk.end_idx - chunk.start_idx;
    match outcome {
        ReadOutcome::Failed(cause) => Err(LoadError::Io { path: chunk.filepath.clone(), cause }),
        ReadOutcome::Data(available) => {
            let mut bytes = available;
            if (bytes.len() as u64) < wanted {
                Err(
                    LoadError::ShortRead {
                        path: chunk.filepath.clone(),
                        start: chunk.start_idx,
                        end: chunk.end_idx,
                    },
                )
            } else {
                bytes.truncate(wanted as usize);
                Ok(bytes)
            }
        },
    }
}

/// Decodes the bytes of one chunk by element type.
pub fn decode_chunk(chunk: &ChunkInfo, bytes: Vec<u8>, data_type: DataType) -> (res: Result<
    LoadedData,
    LoadError,
>)
    ensures
        result_view(res) == chunk_decoded(chunk@, bytes@, data_type),
{
    match data_type {
        DataType::Int8 => {
            let mut values: Vec<i8> = Vec::new();
            let mut i: usize = 0;
            while i < bytes.len()
                invariant
                    i <= bytes.len(),
                    values@ == signed_bytes(bytes@.take(i as int)),
                decreases bytes.len() - i,
            {
                values.push(to_signed(bytes[i]));
                i += 1;
            }
            assert(bytes@.take(i as int) == bytes@);
            Ok(LoadedData::Int8(values))
        },
        DataType::Utf8Str => {
            let ghost raw = bytes@;
            match String::from_utf8(bytes) {
                Ok(s) => {
                    proof {
                        encode_utf8_decode_utf8(s@);
                    }
                    let mut strings: Vec<String> = Vec::new();
                    strings.push(s);
                    assert(string_views(strings@) =~= seq![decode_utf8(raw)]);
                    Ok(LoadedData::Utf8Str(strings))
                },
                Err(_) => Err(
                    LoadError::InvalidEncoding {
                        path: chunk.filepath.clone(),
                        start: chunk.start_idx,
                        end: chunk.end_idx,
                    },
                ),
            }
        },
    }
}

/// Loads one chunk from what reading it brought: checks that the range is
/// complete, then decodes it.
pub fn load_chunk(item: ChunkRead, data_type: DataType) -> (res: Result<LoadedData, LoadError>)
    ensures
        result_view(res) == chunk_outcome(item@, data_type),
{
    let ChunkRead { chunk, outcome } = item;
    match read_chunk(&chunk, outcome) {
        Err(e) => Err(e),
        Ok(bytes) => decode_chunk(&chunk, bytes, data_type),
    }
}

} // verus!
