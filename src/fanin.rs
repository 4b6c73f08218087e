//! The decisions of the concurrent strategy: the breadth-first walk that
//! collects the files of a directory tree, the name each file gets in the
//! archive, and the single archive writer's reaction to what the reader tasks
//! deliver.
use vstd::prelude::*;
use crate::error::ZipError;
use crate::text::{from_chars, to_chars};
use crate::zip_core::Entry;

verus! {

/// The paths of the listed entries that are directories, in order.
pub open spec fn dirs_of(es: Seq<(Seq<char>, Seq<char>, bool)>) -> Seq<Seq<char>>
    decreases es.len(),
{
    if es.len() == 0 {
        Seq::empty()
    } else if es.last().2 {
        dirs_of(es.drop_last()).push(es.last().1)
    } else {
        dirs_of(es.drop_last())
    }
}

/// The paths of the listed entries that are not directories, in order.
pub open spec fn files_of(es: Seq<(Seq<char>, Seq<char>, bool)>) -> Seq<Seq<char>>
    decreases es.len(),
{
    if es.len() == 0 {
        Seq::empty()
    } else if es.last().2 {
        files_of(es.drop_last())
    } else {
        files_of(es.drop_last()).push(es.last().1)
    }
}

/// A breadth-first walk of a directory tree: the directories still to list,
/// in order, and the files found so far. Only entries listed as directories
/// are walked into; the caller lists a symbolic link as what it is, not as
/// its target, so the walk follows no link and meets no cycle.
pub struct Walk {
    pending: Vec<String>,
    files: Vec<String>,
}

impl View for Walk {
    /// The directories still to list, and the files found.
    type V = (Seq<Seq<char>>, Seq<Seq<char>>);

    closed spec fn view(&self) -> (Seq<Seq<char>>, Seq<Seq<char>>) {
        (self.pending@.map_values(|d: String| d@), self.files@.map_values(|f: String| f@))
    }
}

impl Walk {
    /// A walk that starts at `root`.
    pub fn new(root: &str) -> (r: Walk)
        ensures
            r@.0 == seq![root@],
            r@.1 == Seq::<Seq<char>>::empty(),
    {
        let mut pending: Vec<String> = Vec::new();
        pending.push(root.to_owned());
        let r = Walk { pending, files: Vec::new() };
        proof {
            assert(r@.0 =~= seq![root@]);
            assert(r@.1 =~= Seq::<Seq<char>>::empty());
        }
        r
    }

    /// Takes the next directory to list, the oldest one found.
    pub fn next_dir(&mut self) -> (r: Option<String>)
        ensures
            old(self)@.0.len() == 0 ==> r is None && final(self)@ == old(self)@,
            old(self)@.0.len() > 0 ==> (r matches Some(d) && d@ == old(self)@.0[0]
                && final(self)@.0 == old(self)@.0.drop_first() && final(self)@.1 == old(self)@.1),
    {
        if self.pending.len() == 0 {
            None
        } else {
            let ghost before = self@;
            let d = self.pending.remove(0);
            proof {
                assert(self@.0 =~= before.0.drop_first());
            }
            Some(d)
        }
    }

    /// Records the listing of a directory: its subdirectories are queued
    /// behind the others, and its other entries are files.
    pub fn absorb(&mut self, listing: &Vec<Entry>)
        ensures
            final(self)@.0 == old(self)@.0 + dirs_of(listing@.map_values(|e: Entry| e@)),
            final(self)@.1 == old(self)@.1 + files_of(listing@.map_values(|e: Entry| e@)),
    {
        let ghost lv = listing@.map_values(|e: Entry| e@);
        let ghost start = self@;
        let mut i: usize = 0;
        while i < listing.len()
            invariant
                i <= listing@.len(),
                lv == listing@.map_values(|e: Entry| e@),
                self@.0 == start.0 + dirs_of(lv.subrange(0, i as int)),
                self@.1 == start.1 + files_of(lv.subrange(0, i as int)),
            decreases listing.len() - i,
        {
            let e = &listing[i];
            let ghost before = self@;
            proof {
                let pre = lv.subrange(0, i as int + 1);
                assert(pre.drop_last() =~= lv.subrange(0, i as int));
                assert(pre.last() == e@);
            }
            if e.is_dir {
                self.pending.push(e.path.clone());
                proof {
                    assert(self@.0 =~= before.0.push(e.path@));
                    assert(self@.1 =~= before.1);
                }
            } else {
                self.files.push(e.path.clone());
                proof {
                    assert(self@.1 =~= before.1.push(e.path@));
                    assert(self@.0 =~= before.0);
                }
            }
            i = i + 1;
        }
        proof {
            assert(lv.subrange(0, listing@.len() as int) =~= lv);
        }
    }

    /// Whether no directory is left to list.
    pub fn is_done(&self) -> (r: bool)
        ensures
            r == (self@.0.len() == 0),
    {
        self.pending.len() == 0
    }

    /// The files found so far, in the order found.
    pub fn files(&self) -> (r: &Vec<String>)
        ensures
            r@.map_values(|f: String| f@) == self@.1,
    {
        &self.files
    }
}

/// The name that `file` gets in the archive of `dir`: its path relative to
/// `dir`, where it lies strictly under `dir`.
pub open spec fn relative_name(dir: Seq<char>, file: Seq<char>) -> Option<Seq<char>> {
    if file.len() > dir.len() + 1 && file.subrange(0, dir.len() as int) == dir && file[dir.len() as int]
        == '/' {
        Some(file.subrange((dir.len() + 1) as int, file.len() as int))
    } else {
        None
    }
}

/// The archive entry name of `file` in the archive of `dir` (see
/// `relative_name`).
pub fn entry_name(dir: &str, file: &str) -> (r: Option<String>)
    ensures
        match (r, relative_name(dir@, file@)) {
            (Some(a), Some(b)) => a@ == b,
            (None, None) => true,
            _ => false,
        },
{
    let d = to_chars(dir);
    let f = to_chars(file);
    let n = d.len();
    if !(f.len() > n && f.len() - n > 1) {
        return None;
    }
    let mut i: usize = 0;
    while i < n
        invariant
            n == d@.len(),
            n < f@.len(),
            d@ == dir@,
            f@ == file@,
            i <= n,
            forall|j: int| 0 <= j < i ==> f@[j] == d@[j],
        decreases n - i,
    {
        if f[i] != d[i] {
            proof {
                assert(f@.subrange(0, n as int)[i as int] == f@[i as int]);
                assert(f@.subrange(0, n as int) != d@);
            }
            return None;
        }
        i = i + 1;
    }
    proof {
        assert(f@.subrange(0, n as int) =~= d@);
    }
    if f[n] != '/' {
        return None;
    }
    let mut out: Vec<char> = Vec::new();
    let mut k: usize = n + 1;
    while k < f.len()
        invariant
            n + 1 <= k <= f@.len(),
            out@ == f@.subrange(n + 1, k as int),
        decreases f.len() - k,
    {
        out.push(f[k]);
        k = k + 1;
        proof {
            assert(out@ =~= f@.subrange(n + 1, k as int));
        }
    }
    Some(from_chars(&out))
}

/// A copy of a list of strings.
fn clone_all(v: &Vec<String>) -> (r: Vec<String>)
    ensures
        r@.map_values(|s: String| s@) == v@.map_values(|s: String| s@),
{
    let mut r: Vec<String> = Vec::new();
    let mut i: usize = 0;
    while i < v.len()
        invariant
            i <= v@.len(),
            r@.map_values(|s: String| s@) == v@.subrange(0, i as int).map_values(|s: String| s@),
        decreases v.len() - i,
    {
        let ghost before = r@.map_values(|s: String| s@);
        let c = v[i].clone();
        assert(c@ == v@[i as int]@);
        r.push(c);
        proof {
            assert(r@.map_values(|s: String| s@) =~= before.push(c@));
            assert(v@.subrange(0, i as int + 1).map_values(|s: String| s@) =~= v@.subrange(
                0,
                i as int,
            ).map_values(|s: String| s@).push(v@[i as int]@));
        }
        i = i + 1;
    }
    proof {
        assert(v@.subrange(0, v@.len() as int) =~= v@);
    }
    r
}

/// What the archive writer does next.
#[derive(Debug)]
pub enum Step {
    /// Append the payload just received, under this name.
    Append(String),
    /// Nothing to write.
    Ignore,
    /// The archive is finished: with the number of entries, or with the
    /// failure to report for this directory.
    Finish(Result<usize, ZipError>),
}

/// The state of the single archive writer of one directory: how many files
/// the readers were given, the entries appended so far, the files that could
/// not be read, and whether the archive is finished.
pub struct FanIn {
    expected: usize,
    names: Vec<String>,
    failures: Vec<String>,
    done: bool,
}

/// The view of a writer: files expected, entries appended, files that failed,
/// finished.
pub struct FanInView {
    pub expected: nat,
    pub names: Seq<Seq<char>>,
    pub failures: Seq<Seq<char>>,
    pub done: bool,
}

impl View for FanIn {
    type V = FanInView;

    closed spec fn view(&self) -> FanInView {
        FanInView {
            expected: self.expected as nat,
            names: self.names@.map_values(|s: String| s@),
            failures: self.failures@.map_values(|s: String| s@),
            done: self.done,
        }
    }
}

/// How a writer ends once the channel is closed: every file read and appended
/// gives the number of entries; else the unread files are reported; else the
/// mismatch between files and payloads is.
pub open spec fn closing(v: FanInView, r: Result<usize, ZipError>) -> bool {
    if v.failures.len() > 0 {
        r matches Err(ZipError::Read(f)) && f@.map_values(|s: String| s@) == v.failures
    } else if v.names.len() == v.expected {
        r matches Ok(n) && n == v.expected
    } else {
        r matches Err(ZipError::Channel { expected, received }) && expected == v.expected
            && received == v.names.len()
    }
}

/// A writer just made for `expected` files.
pub open spec fn fresh(expected: nat) -> FanInView {
    FanInView { expected, names: Seq::empty(), failures: Seq::empty(), done: false }
}

/// The writer `v` after receiving the payloads named `ns`, in that order, as
/// `FanIn::on_read` says.
pub open spec fn read_all(v: FanInView, ns: Seq<Seq<char>>) -> FanInView
    decreases ns.len(),
{
    if ns.len() == 0 || v.done {
        v
    } else {
        let w = read_all(v, ns.drop_last());
        FanInView { names: w.names.push(ns.last()), ..w }
    }
}

proof fn lemma_read_all(v: FanInView, ns: Seq<Seq<char>>)
    requires
        !v.done,
    ensures
        read_all(v, ns) == (FanInView { names: v.names + ns, ..v }),
    decreases ns.len(),
{
    if ns.len() > 0 {
        lemma_read_all(v, ns.drop_last());
        assert(v.names + ns =~= (v.names + ns.drop_last()).push(ns.last()));
    }
}

/// Whatever order the payloads of a directory arrive in, the writer appends
/// the same entries, one per payload, and finishes the same way.
pub proof fn lemma_arrival_order(expected: nat, a: Seq<Seq<char>>, b: Seq<Seq<char>>)
    requires
        a.to_multiset() == b.to_multiset(),
    ensures
        read_all(fresh(expected), a).names == a,
        read_all(fresh(expected), b).names == b,
        read_all(fresh(expected), a).names.to_multiset() == read_all(
            fresh(expected),
            b,
        ).names.to_multiset(),
        forall|r: Result<usize, ZipError>|
            closing(read_all(fresh(expected), a), r) == closing(read_all(fresh(expected), b), r),
{
    lemma_read_all(fresh(expected), a);
    lemma_read_all(fresh(expected), b);
    assert(Seq::<Seq<char>>::empty() + a =~= a);
    assert(Seq::<Seq<char>>::empty() + b =~= b);
    vstd::seq_lib::to_multiset_len(a);
    vstd::seq_lib::to_multiset_len(b);
}

/// A file that could not be read makes the directory's archive end in a
/// reported failure that names it.
pub proof fn lemma_read_failure_reported(v: FanInView, r: Result<usize, ZipError>, path: Seq<char>)
    requires
        v.failures.contains(path),
        closing(v, r),
    ensures
        r matches Err(ZipError::Read(f)) && f@.map_values(|s: String| s@).contains(path),
{
}

impl FanIn {
    /// A writer for an archive of `expected` files.
    pub fn new(expected: usize) -> (r: FanIn)
        ensures
            r@.expected == expected,
            r@.names.len() == 0,
            r@.failures.len() == 0,
            !r@.done,
    {
        FanIn { expected, names: Vec::new(), failures: Vec::new(), done: false }
    }

    /// The names of the entries appended so far, in order.
    pub fn names(&self) -> (r: &Vec<String>)
        ensures
            r@.map_values(|s: String| s@) == self@.names,
    {
        &self.names
    }

    /// A reader delivered the contents of a file under `name`: unless the
    /// archive is finished, it is appended.
    pub fn on_read(&mut self, name: String) -> (r: Step)
        ensures
            old(self)@.done ==> r is Ignore && final(self)@ == old(self)@,
            !old(self)@.done ==> (r matches Step::Append(a) && a@ == name@ && final(self)@ == (
            FanInView { names: old(self)@.names.push(name@), ..old(self)@ })),
    {
        if self.done {
            return Step::Ignore;
        }
        let ghost before = self@;
        let out = name.clone();
        self.names.push(name);
        proof {
            assert(self@.names =~= before.names.push(name@));
        }
        Step::Append(out)
    }

    /// A reader could not read the file at `path`: it is recorded, to be
    /// reported when the archive is finished, and the other files go on.
    pub fn on_read_failed(&mut self, path: String) -> (r: Step)
        ensures
            r is Ignore,
            old(self)@.done ==> final(self)@ == old(self)@,
            !old(self)@.done ==> final(self)@ == (FanInView {
                failures: old(self)@.failures.push(path@),
                ..old(self)@
            }),
    {
        if self.done {
            return Step::Ignore;
        }
        let ghost before = self@;
        self.failures.push(path);
        proof {
            assert(self@.failures =~= before.failures.push(path@));
        }
        Step::Ignore
    }

    /// Appending the entry `name` failed: the archive is finished with that
    /// failure.
    pub fn on_write_failed(&mut self, name: String) -> (r: Step)
        ensures
            old(self)@.done ==> r is Ignore && final(self)@ == old(self)@,
            !old(self)@.done ==> (r matches Step::Finish(Err(ZipError::ArchiveWrite(n))) && n@
                == name@ && final(self)@ == (FanInView { done: true, ..old(self)@ })),
    {
        if self.done {
            return Step::Ignore;
        }
        self.done = true;
        Step::Finish(Err(ZipError::ArchiveWrite(name)))
    }

    /// All readers are gone and the channel is drained: the archive is
    /// finished (see `closing`).
    pub fn on_closed(&mut self) -> (r: Step)
        ensures
            old(self)@.done ==> r is Ignore && final(self)@ == old(self)@,
            !old(self)@.done ==> (r matches Step::Finish(res) && closing(old(self)@, res)
                && final(self)@ == (FanInView { done: true, ..old(self)@ })),
    {
        if self.done {
            return Step::Ignore;
        }
        self.done = true;
        if self.failures.len() > 0 {
            Step::Finish(Err(ZipError::Read(clone_all(&self.failures))))
        } else if self.names.len() == self.expected {
            Step::Finish(Ok(self.expected))
        } else {
            Step::Finish(Err(ZipError::Channel { expected: self.expected, received: self.names.len() }))
        }
    }
}

} // verus!
