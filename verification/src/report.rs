//! What is reported of a loaded array: the number of its elements and, for
//! strings, the first few of them.

use crate::model::{string_views, LoadedData, LoadedView};
use vstd::prelude::*;

verus! {

/// The number of strings that a summary shows at most.
pub const PREVIEW_LEN: usize = 5;

/// The summary of a loaded array.
#[derive(Debug, Clone, PartialEq, Eq)]
pub struct Summary {
    /// The number of elements.
    pub count: usize,
    /// The first strings, at most `PREVIEW_LEN`; empty for signed bytes.
    pub preview: Vec<String>,
    /// Whether the array holds more strings than the preview shows.
    pub more: bool,
}

/// The view of a [`Summary`].
pub struct SummaryView {
    pub count: nat,
    pub preview: Seq<Seq<char>>,
    pub more: bool,
}

impl View for Summary {
    type V = SummaryView;

    open spec fn view(&self) -> SummaryView {
        SummaryView {
            count: self.count as nat,
            preview: string_views(self.preview@),
            more: self.more,
        }
    }
}

/// The summary that an array has: its length and, of strings, the first
/// `PREVIEW_LEN`, with a mark where there are more.
pub open spec fn summary_of(data: LoadedView) -> SummaryView {
    match data {
        LoadedView::Int8(values) => SummaryView {
            count: values.len(),
            preview: Seq::empty(),
            more: false,
        },
        LoadedView::Utf8Str(strings) => SummaryView {
            count: strings.len(),
            preview: if strings.len() > PREVIEW_LEN {
                strings.take(PREVIEW_LEN as int)
            } else {
                strings
            },
            more: strings.len() > PREVIEW_LEN,
        },
    }
}

/// Summarizes a loaded array.
pub fn summarize(data: &LoadedData) -> (res: Summary)
    ensures
        res@ == summary_of(data@),
{
    match data {
        LoadedData::Int8(values) => {
            let preview: Vec<String> = Vec::new();
            assert(string_views(preview@) =~= Seq::empty());
            Summary { count: values.len(), preview, more: false }
        },
        LoadedData::Utf8Str(strings) => {
            let shown = if strings.len() > PREVIEW_LEN {
                PREVIEW_LEN
            } else {
                strings.len()
            };
            let mut preview: Vec<String> = Vec::new();
            let mut i: usize = 0;
            while i < shown
                invariant
                    i <= shown <= strings.len(),
                    string_views(preview@) =~= string_views(strings@).take(i as int),
                decreases shown - i,
            {
                let ghost before = string_views(preview@);
                let s = strings[i].clone();
                preview.push(s);
                assert(string_views(preview@) =~= before.push(s@));
                i += 1;
            }
            assert(shown == strings.len() ==> string_views(strings@).take(shown as int)
                =~= string_views(strings@));
            Summary { count: strings.len(), preview, more: strings.len() > PREVIEW_LEN }
        },
    }
}

} // verus!
