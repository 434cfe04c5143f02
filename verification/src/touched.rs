//! The touched set: shader files without repeats, and the queue in which
//! they wait to be compiled.

use crate::observe::ShaderFile;
use std::collections::VecDeque;
use vstd::prelude::*;

verus! {

/// Whether some entry of `entries` has the path `path`.
pub open spec fn has_path(entries: Seq<ShaderFile>, path: Seq<char>) -> bool {
    exists|i: int| 0 <= i < entries.len() && (#[trigger] entries[i]).path@ == path
}

/// The paths of `entries`, as a set.
pub open spec fn path_set(entries: Seq<ShaderFile>) -> Set<Seq<char>> {
    Set::new(|path: Seq<char>| has_path(entries, path))
}

/// No two entries of `entries` have the same path.
pub open spec fn distinct_paths(entries: Seq<ShaderFile>) -> bool {
    forall|i: int, j: int|
        0 <= i < j < entries.len() ==> (#[trigger] entries[i]).path@ != (#[trigger] entries[j]).path@
}

/// `seen` without repeats: of the entries with one path, the first stays,
/// and the order of first appearance is kept.
pub open spec fn first_seen(seen: Seq<ShaderFile>) -> Seq<ShaderFile>
    decreases seen.len(),
{
    if seen.len() == 0 {
        Seq::empty()
    } else {
        let before = first_seen(seen.drop_last());
        if has_path(before, seen.last().path@) {
            before
        } else {
            before.push(seen.last())
        }
    }
}

/// The paths of a sequence with one more entry are the paths of the
/// sequence and the path of that entry.
pub proof fn lemma_path_set_push(entries: Seq<ShaderFile>, file: ShaderFile)
    ensures
        path_set(entries.push(file)) == path_set(entries).insert(file.path@),
        path_set(Seq::<ShaderFile>::empty()) == Set::<Seq<char>>::empty(),
{
    let more = entries.push(file);
    assert forall|path: Seq<char>| has_path(more, path) <==> (has_path(entries, path) || path
        == file.path@) by {
        if has_path(more, path) {
            let i = choose|i: int| 0 <= i < more.len() && (#[trigger] more[i]).path@ == path;
            if i < entries.len() {
                assert(entries[i].path@ == path);
            }
        }
        if has_path(entries, path) {
            let i = choose|i: int| 0 <= i < entries.len() && (#[trigger] entries[i]).path@ == path;
            assert(more[i].path@ == path);
        }
        if path == file.path@ {
            assert(more[entries.len() as int].path@ == path);
        }
    }
    assert(path_set(more) =~= path_set(entries).insert(file.path@));
    assert(path_set(Seq::<ShaderFile>::empty()) =~= Set::<Seq<char>>::empty());
}

/// Where no path comes twice, there are as many paths as entries.
pub proof fn lemma_distinct_paths_count(entries: Seq<ShaderFile>)
    requires
        distinct_paths(entries),
    ensures
        path_set(entries).finite(),
        path_set(entries).len() == entries.len(),
    decreases entries.len(),
{
    if entries.len() == 0 {
        lemma_path_set_push(entries, arbitrary());
        assert(entries == Seq::<ShaderFile>::empty());
    } else {
        let before = entries.drop_last();
        let last = entries.last();
        assert(entries == before.push(last));
        lemma_distinct_paths_count(before);
        lemma_path_set_push(before, last);
        if has_path(before, last.path@) {
            let i = choose|i: int| 0 <= i < before.len() && (#[trigger] before[i]).path@ == last.path@;
            assert(entries[i].path@ == entries[entries.len() - 1].path@);
        }
    }
}

/// Dropping repeats leaves no path twice and loses no path.
pub proof fn lemma_first_seen(seen: Seq<ShaderFile>)
    ensures
        distinct_paths(first_seen(seen)),
        path_set(first_seen(seen)) == path_set(seen),
        first_seen(seen).len() <= seen.len(),
    decreases seen.len(),
{
    if seen.len() == 0 {
        assert(path_set(first_seen(seen)) =~= path_set(seen));
    } else {
        let earlier = seen.drop_last();
        let last = seen.last();
        let before = first_seen(earlier);
        assert(seen == earlier.push(last));
        lemma_first_seen(earlier);
        lemma_path_set_push(earlier, last);
        lemma_path_set_push(before, last);
        if has_path(before, last.path@) {
            assert(path_set(before).contains(last.path@));
            assert(path_set(before).insert(last.path@) =~= path_set(before));
        } else {
            let kept = before.push(last);
            assert forall|i: int, j: int| 0 <= i < j < kept.len() implies (#[trigger] kept[i]).path@
                != (#[trigger] kept[j]).path@ by {
                if j == before.len() {
                    assert(before[i].path@ != last.path@);
                }
            }
        }
    }
}

/// A set of shader files, one for each path.
#[derive(Debug)]
pub struct TouchedSet {
    entries: Vec<ShaderFile>,
}

impl View for TouchedSet {
    type V = Set<Seq<char>>;

    /// The paths in the set.
    open spec fn view(&self) -> Set<Seq<char>> {
        path_set(self.entries())
    }
}

impl TouchedSet {
    /// The files of the set, in the order in which their paths first came.
    pub closed spec fn entries(&self) -> Seq<ShaderFile> {
        self.entries@
    }

    /// No path comes twice in a set. Every set that `new` and `insert` make
    /// is well formed.
    pub open spec fn wf(&self) -> bool {
        distinct_paths(self.entries())
    }

    /// The empty set.
    pub fn new() -> (set: TouchedSet)
        ensures
            set.entries() == Seq::<ShaderFile>::empty(),
            set.wf(),
    {
        TouchedSet { entries: Vec::new() }
    }

    /// How many files the set holds, which is how many paths.
    pub fn len(&self) -> (n: usize)
        ensures
            n == self.entries().len(),
            self.wf() ==> n == self@.len(),
    {
        proof {
            if self.wf() {
                lemma_distinct_paths_count(self.entries@);
            }
        }
        self.entries.len()
    }

    /// Whether the set holds no file.
    pub fn is_empty(&self) -> (b: bool)
        ensures
            b == (self.entries().len() == 0),
    {
        self.entries.is_empty()
    }

    /// Whether the set holds a file with the path `path`.
    pub fn contains(&self, path: &str) -> (b: bool)
        ensures
            b == has_path(self.entries(), path@),
    {
        let mut i: usize = 0;
        while i < self.entries.len()
            invariant
                i <= self.entries@.len(),
                forall|j: int| 0 <= j < i ==> (#[trigger] self.entries@[j]).path@ != path@,
            decreases self.entries@.len() - i,
        {
            if self.entries[i].path.as_str().eq(path) {
                return true;
            }
            i += 1;
        }
        false
    }

    /// Adds `file` unless the set already holds a file with its path.
    /// Returns whether it was added.
    pub fn insert(&mut self, file: ShaderFile) -> (added: bool)
        ensures
            added == !has_path(old(self).entries(), file.path@),
            final(self).entries() == if added {
                old(self).entries().push(file)
            } else {
                old(self).entries()
            },
            final(self)@ == old(self)@.insert(file.path@),
            old(self).wf() ==> final(self).wf(),
    {
        proof {
            lemma_path_set_push(self.entries@, file);
        }
        if self.contains(file.path.as_str()) {
            assert(self@.insert(file.path@) =~= self@);
            false
        } else {
            self.entries.push(file);
            true
        }
    }

    /// The files of the set, in the order in which their paths first came.
    pub fn into_files(self) -> (files: Vec<ShaderFile>)
        ensures
            files@ == self.entries(),
    {
        self.entries
    }
}

/// The shader files that wait to be compiled, to be taken one at a time.
#[derive(Debug)]
pub struct CompileQueue {
    files: VecDeque<ShaderFile>,
}

impl View for CompileQueue {
    type V = Seq<ShaderFile>;

    /// The files that are still waiting, next first.
    closed spec fn view(&self) -> Seq<ShaderFile> {
        self.files@
    }
}

impl CompileQueue {
    /// The queue of the files of `set`, in the order in which their paths
    /// first came.
    pub fn new(set: TouchedSet) -> (queue: CompileQueue)
        ensures
            queue@ == set.entries(),
    {
        let ghost entries = set.entries();
        let mut files: VecDeque<ShaderFile> = VecDeque::new();
        for file in it: set.into_files()
            invariant
                it.seq() == entries,
                files@ == entries.take(it.index()),
        {
            files.push_back(file);
            assert(entries.take(it.index() + 1) == entries.take(it.index()).push(file));
        }
        assert(entries.take(entries.len() as int) == entries);
        CompileQueue { files }
    }

    /// How many files are still waiting.
    pub fn len(&self) -> (n: usize)
        ensures
            n == self@.len(),
    {
        self.files.len()
    }

    /// Takes the next file off the queue; `None` once the queue is empty.
    pub fn next_file(&mut self) -> (file: Option<ShaderFile>)
        ensures
            old(self)@.len() == 0 ==> file is None && final(self)@ == old(self)@,
            old(self)@.len() > 0 ==> file == Some(old(self)@[0]) && final(self)@ == old(self)@.skip(1),
    {
        self.files.pop_front()
    }
}

} // verus!
