//! Loading of typed, byte-addressed chunks that are scattered over files.
//!
//! A job names an element type and an ordered list of chunks, each a byte
//! range of one file. The library does no I/O: the caller opens the files and
//! reads the ranges, and the library decides everything else.
//!
//! 1. [`parse_args`] reads the jobs from a command line; a job can as well be
//!    built from [`ChunkInfo::new`].
//! 2. [`FileRegistry::for_chunks`] lists the distinct files of a job, so that
//!    each is opened once; [`FileRegistry::check_opened`] fails the job where
//!    one could not be.
//! 3. The caller reads each chunk and pairs it with the [`ReadOutcome`].
//! 4. [`load_arrays`] checks every read for completeness, decodes the chunks
//!    on worker threads, and concatenates them in the order of the job.
//! 5. [`summarize`] says what to report of the loaded array.

pub mod args;
pub mod decode;
pub mod model;
pub mod reassemble;
pub mod registry;
pub mod report;

pub use args::{parse_args, parse_chunk, parse_chunk_run, parse_u64};
pub use decode::{decode_chunk, load_chunk, read_chunk, to_signed};
pub use model::{ChunkInfo, ChunkRead, DataType, Job, LoadError, LoadedData, ReadOutcome};
pub use reassemble::{any_inverted_range, concat_loaded, load_arrays, reassemble_loaded};
pub use registry::FileRegistry;
pub use report::{summarize, Summary, PREVIEW_LEN};
