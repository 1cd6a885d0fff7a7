//! The data model: element types, chunk descriptors, jobs, loaded arrays and
//! errors, each with the mathematical view that the contracts speak of.

use vstd::prelude::*;

verus! {

/// How the bytes of a chunk are interpreted.
#[derive(Debug, Clone, Copy, PartialEq, Eq, Structural)]
pub enum DataType {
    /// Every byte is one signed 8-bit element.
    Int8,
    /// The whole chunk is one UTF-8 string.
    Utf8Str,
}

/// A contiguous byte range `[start_idx, end_idx)` of one file.
#[derive(Debug, Clone, PartialEq, Eq)]
pub struct ChunkInfo {
    pub filepath: String,
    pub start_idx: u64,
    pub end_idx: u64,
}

/// The view of a [`ChunkInfo`].
pub struct ChunkView {
    pub filepath: Seq<char>,
    pub start_idx: u64,
    pub end_idx: u64,
}

impl ChunkView {
    /// The range is not inverted.
    pub open spec fn is_valid(self) -> bool {
        self.start_idx <= self.end_idx
    }

    /// The number of bytes that the chunk asks for.
    pub open spec fn byte_len(self) -> nat {
        if self.is_valid() {
            (self.end_idx - self.start_idx) as nat
        } else {
            0
        }
    }
}

impl View for ChunkInfo {
    type V = ChunkView;

    open spec fn view(&self) -> ChunkView {
        ChunkView {
            filepath: self.filepath@,
            start_idx: self.start_idx,
            end_idx: self.end_idx,
        }
    }
}

/// One element type and the chunks to load for it, in concatenation order.
#[derive(Debug, Clone, PartialEq, Eq)]
pub struct Job {
    pub data_type: DataType,
    pub chunks: Vec<ChunkInfo>,
}

/// The views of the chunks, in order.
pub open spec fn chunk_views(chunks: Seq<ChunkInfo>) -> Seq<ChunkView> {
    Seq::new(chunks.len(), |i: int| chunks[i]@)
}

/// The view of a [`Job`].
pub struct JobView {
    pub data_type: DataType,
    pub chunks: Seq<ChunkView>,
}

impl View for Job {
    type V = JobView;

    open spec fn view(&self) -> JobView {
        JobView {
            data_type: self.data_type,
            chunks: chunk_views(self.chunks@),
        }
    }
}

/// A loaded array: signed bytes or strings, never a mix.
#[derive(Debug, Clone, PartialEq, Eq)]
pub enum LoadedData {
    Int8(Vec<i8>),
    Utf8Str(Vec<String>),
}

/// The strings as sequences of characters, in order.
pub open spec fn string_views(strings: Seq<String>) -> Seq<Seq<char>> {
    Seq::new(strings.len(), |i: int| strings[i]@)
}

/// The view of a [`LoadedData`].
pub enum LoadedView {
    Int8(Seq<i8>),
    Utf8Str(Seq<Seq<char>>),
}

impl LoadedView {
    /// The element type that the array holds.
    pub open spec fn data_type(self) -> DataType {
        match self {
            LoadedView::Int8(_) => DataType::Int8,
            LoadedView::Utf8Str(_) => DataType::Utf8Str,
        }
    }

    /// The number of elements.
    pub open spec fn len(self) -> nat {
        match self {
            LoadedView::Int8(s) => s.len(),
            LoadedView::Utf8Str(s) => s.len(),
        }
    }

    /// The array without elements of the given type.
    pub open spec fn empty(data_type: DataType) -> LoadedView {
        match data_type {
            DataType::Int8 => LoadedView::Int8(Seq::empty()),
            DataType::Utf8Str => LoadedView::Utf8Str(Seq::empty()),
        }
    }

    /// `self` followed by the elements of `part`. A part of the other element
    /// type adds nothing.
    pub open spec fn append(self, part: LoadedView) -> LoadedView {
        match (self, part) {
            (LoadedView::Int8(a), LoadedView::Int8(b)) => LoadedView::Int8(a + b),
            (LoadedView::Utf8Str(a), LoadedView::Utf8Str(b)) => LoadedView::Utf8Str(a + b),
            (a, _) => a,
        }
    }
}

impl View for LoadedData {
    type V = LoadedView;

    open spec fn view(&self) -> LoadedView {
        match self {
            LoadedData::Int8(v) => LoadedView::Int8(v@),
            LoadedData::Utf8Str(v) => LoadedView::Utf8Str(string_views(v@)),
        }
    }
}

/// Why a job was rejected or failed.
#[derive(Debug, Clone, PartialEq, Eq)]
pub enum LoadError {
    /// The file could not be opened.
    FileOpen { path: String },
    /// The file ends before the chunk does.
    ShortRead { path: String, start: u64, end: u64 },
    /// Reading or seeking failed.
    Io { path: String, cause: String },
    /// The chunk's bytes are not valid UTF-8.
    InvalidEncoding { path: String, start: u64, end: u64 },
    /// The job description is malformed.
    InvalidJobSpec,
}

/// The view of a [`LoadError`].
pub enum ErrorView {
    FileOpen { path: Seq<char> },
    ShortRead { path: Seq<char>, start: u64, end: u64 },
    Io { path: Seq<char>, cause: Seq<char> },
    InvalidEncoding { path: Seq<char>, start: u64, end: u64 },
    InvalidJobSpec,
}

impl View for LoadError {
    type V = ErrorView;

    open spec fn view(&self) -> ErrorView {
        match self {
            LoadError::FileOpen { path } => ErrorView::FileOpen { path: path@ },
            LoadError::ShortRead { path, start, end } => ErrorView::ShortRead {
                path: path@,
                start: *start,
                end: *end,
            },
            LoadError::Io { path, cause } => ErrorView::Io { path: path@, cause: cause@ },
            LoadError::InvalidEncoding { path, start, end } => ErrorView::InvalidEncoding {
                path: path@,
                start: *start,
                end: *end,
            },
            LoadError::InvalidJobSpec => ErrorView::InvalidJobSpec,
        }
    }
}

/// What a positioned read of one chunk brought.
#[derive(Debug, Clone, PartialEq, Eq)]
pub enum ReadOutcome {
    /// The bytes that the file holds from the chunk's start on: all that the
    /// chunk asks for, or fewer where the file ends before the chunk does.
    Data(Vec<u8>),
    /// Reading or seeking failed, with the cause in words.
    Failed(String),
}

/// The view of a [`ReadOutcome`].
pub enum ReadView {
    Data(Seq<u8>),
    Failed(Seq<char>),
}

impl View for ReadOutcome {
    type V = ReadView;

    open spec fn view(&self) -> ReadView {
        match self {
            ReadOutcome::Data(bytes) => ReadView::Data(bytes@),
            ReadOutcome::Failed(cause) => ReadView::Failed(cause@),
        }
    }
}

/// A chunk together with what reading it brought: the unit of work.
#[derive(Debug, Clone, PartialEq, Eq)]
pub struct ChunkRead {
    pub chunk: ChunkInfo,
    pub outcome: ReadOutcome,
}

/// The view of a [`ChunkRead`].
pub struct ChunkReadView {
    pub chunk: ChunkView,
    pub outcome: ReadView,
}

impl View for ChunkRead {
    type V = ChunkReadView;

    open spec fn view(&self) -> ChunkReadView {
        ChunkReadView { chunk: self.chunk@, outcome: self.outcome@ }
    }
}

impl ChunkInfo {
    /// A chunk descriptor for the range `[start_idx, end_idx)` of `filepath`.
    /// An inverted range is rejected.
    pub fn new(filepath: String, start_idx: u64, end_idx: u64) -> (res: Result<
        ChunkInfo,
        LoadError,
    >)
        ensures
            start_idx <= end_idx ==> res is Ok && res->Ok_0@ == (ChunkView {
                filepath: filepath@,
                start_idx,
                end_idx,
            }),
            start_idx > end_idx ==> res is Err && res->Err_0@ == ErrorView::InvalidJobSpec,
    {
        if start_idx <= end_idx {
            Ok(ChunkInfo { filepath, start_idx, end_idx })
        } else {
            Err(LoadError::InvalidJobSpec)
        }
    }

    /// Whether the range is not inverted.
    pub fn is_valid(&self) -> (res: bool)
        ensures
            res == self@.is_valid(),
    {
        self.start_idx <= self.end_idx
    }

    /// The number of bytes that the chunk asks for; 0 for an inverted range.
    pub fn byte_len(&self) -> (res: u64)
        ensures
            res == self@.byte_len(),
    {
        if self.start_idx <= self.end_idx {
            self.end_idx - self.start_idx
        } else {
            0
        }
    }
}

} // verus!
