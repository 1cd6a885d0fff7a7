//! The file handle registry: the distinct files of a job, each with one slot,
//! so that a file is opened once however many chunks read from it.

use crate::model::{string_views, ChunkInfo, ErrorView, LoadError};
use vstd::hash_map::StringHashMap;
use vstd::prelude::*;

verus! {

/// The file paths of the chunks, in order.
pub open spec fn chunk_paths(chunks: Seq<ChunkInfo>) -> Seq<Seq<char>> {
    Seq::new(chunks.len(), |i: int| chunks[i].filepath@)
}

/// The paths without repetition, each at the place of its first occurrence.
pub open spec fn distinct_paths(paths: Seq<Seq<char>>) -> Seq<Seq<char>>
    decreases paths.len(),
{
    if paths.len() == 0 {
        Seq::empty()
    } else {
        let front = distinct_paths(paths.drop_last());
        if front.contains(paths.last()) {
            front
        } else {
            front.push(paths.last())
        }
    }
}

/// The first slot from `from` on, of `len` slots, whose file was not opened.
pub open spec fn first_unopened(len: int, opened: Seq<bool>, from: int) -> Option<int>
    decreases len - from,
{
    if from < 0 || from >= len {
        None
    } else if from >= opened.len() || !opened[from] {
        Some(from)
    } else {
        first_unopened(len, opened, from + 1)
    }
}

/// Each path has its place in the list as its slot, and the map holds no
/// other path.
spec fn slots_match(paths: Seq<String>, slots: Map<Seq<char>, usize>) -> bool {
    &&& forall|j: int|
        0 <= j < paths.len() ==> slots.contains_key(#[trigger] paths[j]@) && slots[paths[j]@] == j
    &&& forall|key: Seq<char>| #[trigger]
        slots.contains_key(key) ==> 0 <= slots[key] < paths.len() && paths[slots[key] as int]@
            == key
}

/// The distinct files of a job. The place of a path in the registry is its
/// slot: the caller opens the file of each slot once and keeps the handle
/// under the slot's number.
pub struct FileRegistry {
    paths: Vec<String>,
    slots: StringHashMap<usize>,
}

impl View for FileRegistry {
    type V = Seq<Seq<char>>;

    /// The paths by slot.
    closed spec fn view(&self) -> Seq<Seq<char>> {
        string_views(self.paths@)
    }
}

impl FileRegistry {
    /// The map from path to slot is the inverse of the list of paths.
    #[verifier::type_invariant]
    spec fn slots_match_paths(self) -> bool {
        slots_match(self.paths@, self.slots@)
    }

    /// The registry of the files that the chunks name: every file has a
    /// slot, and only one, however many chunks name it. The slots follow the
    /// order in which the files first occur.
    pub fn for_chunks(chunks: &Vec<ChunkInfo>) -> (res: FileRegistry)
        ensures
            res@ == distinct_paths(chunk_paths(chunks@)),
            res@.no_duplicates(),
            forall|i: int|
                0 <= i < chunks@.len() ==> res@.contains(#[trigger] chunks@[i].filepath@),
    {
        let mut paths: Vec<String> = Vec::new();
        let mut slots: StringHashMap<usize> = StringHashMap::new();
        let ghost all = chunk_paths(chunks@);
        let mut i: usize = 0;
        while i < chunks.len()
            invariant
                i <= chunks.len(),
                all == chunk_paths(chunks@),
                string_views(paths@) == distinct_paths(all.take(i as int)),
                slots_match(paths@, slots@),
            decreases chunks.len() - i,
        {
            let path = &chunks[i].filepath;
            let ghost before = string_views(paths@);
            proof {
                assert(all.take(i + 1).drop_last() == all.take(i as int));
                assert(all.take(i + 1).last() == path@);
                if before.contains(path@) {
                    let j = choose|j: int| 0 <= j < before.len() && before[j] == path@;
                    assert(slots@.contains_key(paths@[j]@));
                }
                if slots@.contains_key(path@) {
                    assert(before[slots@[path@] as int] == path@);
                }
            }
            if !slots.contains_key(path.as_str()) {
                slots.insert(path.clone(), paths.len());
                paths.push(path.clone());
            }
            i += 1;
        }
        proof {
            assert(all.take(i as int) == all);
            lemma_one_slot_per_file(all);
            assert forall|i: int| 0 <= i < chunks@.len() implies string_views(paths@).contains(
                #[trigger] chunks@[i].filepath@,
            ) by {
                assert(all[i] == chunks@[i].filepath@);
            }
        }
        FileRegistry { paths, slots }
    }

    /// The number of distinct files.
    pub fn len(&self) -> (res: usize)
        ensures
            res == self@.len(),
    {
        self.paths.len()
    }

    /// The paths by slot: the files to open, each once.
    pub fn paths(&self) -> (res: &Vec<String>)
        ensures
            string_views(res@) == self@,
            string_views(res@).no_duplicates(),
    {
        proof {
            use_type_invariant(self);
            lemma_slots_distinct(self.paths@, self.slots@);
        }
        &self.paths
    }

    /// Checks what opening the files brought: `opened` says for each slot
    /// whether its file could be opened. One file that could not fails the
    /// job, with the path of the first such slot; a slot that `opened` does
    /// not reach counts as not opened.
    pub fn check_opened(&self, opened: &Vec<bool>) -> (res: Result<(), LoadError>)
        ensures
            match first_unopened(self@.len() as int, opened@, 0) {
                Some(slot) => res is Err && res->Err_0@ == (ErrorView::FileOpen {
                    path: self@[slot],
                }),
                None => res is Ok,
            },
    {
        let mut i: usize = 0;
        while i < self.paths.len()
            invariant
                i <= self.paths@.len(),
                first_unopened(self@.len() as int, opened@, 0) == first_unopened(
                    self@.len() as int,
                    opened@,
                    i as int,
                ),
            decreases self.paths@.len() - i,
        {
            if i >= opened.len() || !opened[i] {
                return Err(LoadError::FileOpen { path: self.paths[i].clone() });
            }
            i += 1;
        }
        Ok(())
    }

    /// The slot of a path, or `None` for a path that the registry does not
    /// hold.
    pub fn slot_of(&self, path: &str) -> (res: Option<usize>)
        ensures
            match res {
                Some(slot) => slot < self@.len() && self@[slot as int] == path@ && forall|j: int|
                    0 <= j < self@.len() && self@[j] == path@ ==> j == slot,
                None => !self@.contains(path@),
            },
    {
        proof {
            use_type_invariant(self);
            lemma_slots_distinct(self.paths@, self.slots@);
        }
        match self.slots.get(path) {
            Some(slot) => Some(*slot),
            None => {
                proof {
                    if self@.contains(path@) {
                        let j = choose|j: int| 0 <= j < self@.len() && self@[j] == path@;
                        assert(self.slots@.contains_key(self.paths@[j]@));
                    }
                }
                None
            },
        }
    }
}

/// Paths that have their places as slots are distinct.
proof fn lemma_slots_distinct(paths: Seq<String>, slots: Map<Seq<char>, usize>)
    requires
        slots_match(paths, slots),
    ensures
        string_views(paths).no_duplicates(),
{
    assert forall|j: int, k: int|
        0 <= j < paths.len() && 0 <= k < paths.len() && j != k implies string_views(paths)[j]
        != string_views(paths)[k] by {
        assert(slots[paths[j]@] == j);
        assert(slots[paths[k]@] == k);
    }
}

/// Handle reuse: every file that a chunk names has a slot, no slot is for a
/// file that no chunk names, and no file has two slots, however many chunks
/// name it.
pub proof fn lemma_one_slot_per_file(paths: Seq<Seq<char>>)
    ensures
        distinct_paths(paths).no_duplicates(),
        forall|p: Seq<char>| #[trigger] distinct_paths(paths).contains(p) <==> paths.contains(p),
    decreases paths.len(),
{
    if paths.len() > 0 {
        let front = paths.drop_last();
        lemma_one_slot_per_file(front);
        let kept = distinct_paths(front);
        let all = distinct_paths(paths);
        assert forall|p: Seq<char>| #[trigger] all.contains(p) <==> paths.contains(p) by {
            if paths.contains(p) {
                let j = choose|j: int| 0 <= j < paths.len() && paths[j] == p;
                if j < front.len() {
                    assert(front[j] == p);
                    assert(kept.contains(p));
                    let k = choose|k: int| 0 <= k < kept.len() && kept[k] == p;
                    assert(all[k] == p);
                } else if !kept.contains(p) {
                    assert(all[all.len() - 1] == p);
                }
            }
            if all.contains(p) {
                let k = choose|k: int| 0 <= k < all.len() && all[k] == p;
                if k < kept.len() {
                    assert(kept[k] == p);
                    assert(kept.contains(p));
                    assert(front.contains(p));
                    let j = choose|j: int| 0 <= j < front.len() && front[j] == p;
                    assert(paths[j] == p);
                } else {
                    assert(paths[paths.len() - 1] == p);
                }
            }
        }
    }
}

} // verus!
