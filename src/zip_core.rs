//! The archival engine: which entries of the root directory are archived, and
//! the strategies that archive one directory each.
use vstd::prelude::*;
use crate::option::ZipType;
use crate::path::{excluded_by, PathMatcher};
use crate::text::{from_chars, to_chars};

verus! {

/// A way of turning one directory into one archive.
pub trait ZipCore {
    spec fn spec_kind(&self) -> ZipType;

    /// Which strategy this is.
    fn kind(&self) -> (r: ZipType)
        ensures
            r == self.spec_kind(),
    ;
}

/// Concurrent readers, one per file of the whole subtree, feeding a single
/// archive writer through a bounded channel.
#[derive(Debug, Clone, Copy)]
pub struct AsyncZip;

/// Whole-directory compression on a blocking worker.
#[derive(Debug, Clone, Copy)]
pub struct Zip;

/// Incremental compression, written chunk by chunk.
#[derive(Debug, Clone, Copy)]
pub struct Zipper;

impl ZipCore for AsyncZip {
    open spec fn spec_kind(&self) -> ZipType {
        ZipType::AsyncZip
    }

    fn kind(&self) -> (r: ZipType) {
        ZipType::AsyncZip
    }
}

impl ZipCore for Zip {
    open spec fn spec_kind(&self) -> ZipType {
        ZipType::Zip
    }

    fn kind(&self) -> (r: ZipType) {
        ZipType::Zip
    }
}

impl ZipCore for Zipper {
    open spec fn spec_kind(&self) -> ZipType {
        ZipType::Zipper
    }

    fn kind(&self) -> (r: ZipType) {
        ZipType::Zipper
    }
}

/// The capacity of the channel between the reader tasks and the archive
/// writer.
pub const CHANNEL_CAPACITY: usize = 1024;

/// An entry of the root directory, as listed: its name, its path, and whether
/// it is a directory.
#[derive(Debug, Clone)]
pub struct Entry {
    pub name: String,
    pub path: String,
    pub is_dir: bool,
}

impl View for Entry {
    type V = (Seq<char>, Seq<char>, bool);

    open spec fn view(&self) -> (Seq<char>, Seq<char>, bool) {
        (self.name@, self.path@, self.is_dir)
    }
}

/// A name that starts with the hidden-file marker `.`.
pub open spec fn is_hidden(name: Seq<char>) -> bool {
    name.len() > 0 && name[0] == '.'
}

/// Whether an entry is left out: hidden, not a directory, or excluded (the
/// exclusions being resolved from the working directory of `m`).
pub open spec fn skipped(
    m: (Seq<char>, Seq<char>),
    excluded: Seq<Seq<char>>,
    e: (Seq<char>, Seq<char>, bool),
) -> bool {
    is_hidden(e.0) || !e.2 || excluded_by(m, Some(m.1), excluded, e.1)
}

/// The paths of the entries that are archived, in listing order.
pub open spec fn planned(
    m: (Seq<char>, Seq<char>),
    excluded: Seq<Seq<char>>,
    es: Seq<(Seq<char>, Seq<char>, bool)>,
) -> Seq<Seq<char>>
    decreases es.len(),
{
    if es.len() == 0 {
        Seq::empty()
    } else {
        let rest = planned(m, excluded, es.drop_last());
        if skipped(m, excluded, es.last()) {
            rest
        } else {
            rest.push(es.last().1)
        }
    }
}

/// Where the archive of directory `dir` goes: beside it, named after it.
pub open spec fn archive_path_of(dir: Seq<char>) -> Seq<char> {
    dir + seq!['.', 'z', 'i', 'p']
}

/// The path of the archive made of directory `dir`.
pub fn archive_path(dir: &str) -> (r: String)
    ensures
        r@ == archive_path_of(dir@),
{
    let mut cs = to_chars(dir);
    cs.push('.');
    cs.push('z');
    cs.push('i');
    cs.push('p');
    proof {
        assert(cs@ =~= archive_path_of(dir@));
    }
    from_chars(&cs)
}

/// A listing in which every entry is hidden or excluded yields no archive.
pub proof fn lemma_nothing_to_archive(
    m: (Seq<char>, Seq<char>),
    excluded: Seq<Seq<char>>,
    es: Seq<(Seq<char>, Seq<char>, bool)>,
)
    requires
        forall|i: int|
            0 <= i < es.len() ==> is_hidden(#[trigger] es[i].0) || excluded_by(
                m,
                Some(m.1),
                excluded,
                es[i].1,
            ),
    ensures
        planned(m, excluded, es).len() == 0,
    decreases es.len(),
{
    if es.len() > 0 {
        let d = es.drop_last();
        assert forall|i: int|
            0 <= i < d.len() implies is_hidden(#[trigger] d[i].0) || excluded_by(
            m,
            Some(m.1),
            excluded,
            d[i].1,
        ) by {
            assert(d[i] == es[i]);
        }
        lemma_nothing_to_archive(m, excluded, d);
        assert(skipped(m, excluded, es[es.len() - 1]));
    }
}

/// Every entry that is not left out is planned, and every planned path is
/// that of an entry not left out.
pub proof fn lemma_planned_members(
    m: (Seq<char>, Seq<char>),
    excluded: Seq<Seq<char>>,
    es: Seq<(Seq<char>, Seq<char>, bool)>,
)
    ensures
        forall|i: int|
            0 <= i < es.len() && !skipped(m, excluded, #[trigger] es[i]) ==> planned(
                m,
                excluded,
                es,
            ).contains(es[i].1),
        forall|j: int|
            #![trigger planned(m, excluded, es)[j]]
            0 <= j < planned(m, excluded, es).len() ==> exists|i: int|
                0 <= i < es.len() && !skipped(m, excluded, #[trigger] es[i]) && es[i].1
                    == planned(m, excluded, es)[j],
    decreases es.len(),
{
    if es.len() > 0 {
        let d = es.drop_last();
        let rest = planned(m, excluded, d);
        let p = planned(m, excluded, es);
        lemma_planned_members(m, excluded, d);
        assert forall|i: int|
            0 <= i < es.len() && !skipped(m, excluded, #[trigger] es[i]) implies p.contains(
            es[i].1,
        ) by {
            if i < es.len() - 1 {
                assert(es[i] == d[i]);
                let k = choose|k: int| 0 <= k < rest.len() && rest[k] == d[i].1;
                assert(p[k] == rest[k]);
            } else {
                assert(p[p.len() - 1] == es[i].1);
            }
        }
        assert forall|j: int| #![trigger p[j]] 0 <= j < p.len() implies exists|i: int|
            0 <= i < es.len() && !skipped(m, excluded, #[trigger] es[i]) && es[i].1 == p[j] by {
            if j < rest.len() {
                let i = choose|i: int|
                    0 <= i < d.len() && !skipped(m, excluded, #[trigger] d[i]) && d[i].1
                        == rest[j];
                assert(es[i] == d[i]);
                assert(p[j] == rest[j]);
            } else {
                assert(es[es.len() - 1].1 == p[j]);
            }
        }
    }
}

/// Where the listed paths are distinct, each directory that is not left out is
/// planned exactly once, so that it gets exactly one archive, and no two
/// planned directories share an archive path.
pub proof fn lemma_one_archive_each(
    m: (Seq<char>, Seq<char>),
    excluded: Seq<Seq<char>>,
    es: Seq<(Seq<char>, Seq<char>, bool)>,
)
    requires
        forall|i: int, j: int| 0 <= i < j < es.len() ==> #[trigger] es[i].1 != #[trigger] es[j].1,
    ensures
        planned(m, excluded, es).no_duplicates(),
        forall|i: int|
            0 <= i < es.len() && !skipped(m, excluded, #[trigger] es[i]) ==> planned(
                m,
                excluded,
                es,
            ).contains(es[i].1),
        forall|a: int, b: int|
            0 <= a < b < planned(m, excluded, es).len() ==> archive_path_of(
                #[trigger] planned(m, excluded, es)[a],
            ) != archive_path_of(#[trigger] planned(m, excluded, es)[b]),
    decreases es.len(),
{
    lemma_planned_members(m, excluded, es);
    let p = planned(m, excluded, es);
    if es.len() > 0 {
        let d = es.drop_last();
        let rest = planned(m, excluded, d);
        assert forall|i: int, j: int| 0 <= i < j < d.len() implies #[trigger] d[i].1
            != #[trigger] d[j].1 by {
            assert(d[i] == es[i] && d[j] == es[j]);
        }
        lemma_one_archive_each(m, excluded, d);
        lemma_planned_members(m, excluded, d);
        if !skipped(m, excluded, es.last()) {
            assert forall|a: int| 0 <= a < rest.len() implies rest[a] != es.last().1 by {
                let i = choose|i: int|
                    0 <= i < d.len() && !skipped(m, excluded, #[trigger] d[i]) && d[i].1
                        == rest[a];
                assert(d[i] == es[i]);
            }
        }
    }
    assert forall|a: int, b: int| 0 <= a < b < p.len() implies archive_path_of(#[trigger] p[a])
        != archive_path_of(#[trigger] p[b]) by {
        if archive_path_of(p[a]) == archive_path_of(p[b]) {
            assert(archive_path_of(p[a]).len() == p[a].len() + 4);
            assert(archive_path_of(p[b]).len() == p[b].len() + 4);
            assert(p[a] =~= archive_path_of(p[a]).subrange(0, p[a].len() as int));
            assert(p[b] =~= archive_path_of(p[b]).subrange(0, p[b].len() as int));
        }
    }
}

/// Archives each selected subdirectory of `path` with the strategy `inner`.
pub struct DirsZipEngine<T: ZipCore> {
    inner: T,
    path: String,
    excluded: Vec<String>,
    matcher: PathMatcher,
}

impl<T: ZipCore> DirsZipEngine<T> {
    pub closed spec fn spec_inner(&self) -> T {
        self.inner
    }

    pub closed spec fn spec_path(&self) -> Seq<char> {
        self.path@
    }

    pub closed spec fn spec_excluded(&self) -> Seq<Seq<char>> {
        self.excluded@.map_values(|e: String| e@)
    }

    pub closed spec fn spec_matcher(&self) -> PathMatcher {
        self.matcher
    }

    pub open spec fn wf(&self) -> bool {
        self.spec_matcher().wf()
    }

    /// An engine over the root directory `path`, leaving out the directories
    /// `excluded`, with paths resolved by `matcher`.
    pub fn new(inner: T, path: &str, excluded: Vec<String>, matcher: PathMatcher) -> (r: Self)
        requires
            matcher.wf(),
        ensures
            r.spec_inner() == inner,
            r.spec_path() == path@,
            r.spec_excluded() == excluded@.map_values(|e: String| e@),
            r.spec_matcher() == matcher,
            r.wf(),
    {
        DirsZipEngine { inner, path: path.to_owned(), excluded, matcher }
    }

    /// The strategy.
    pub fn inner(&self) -> (r: &T)
        ensures
            *r == self.spec_inner(),
    {
        &self.inner
    }

    /// The root directory whose entries are archived.
    pub fn path(&self) -> (r: &str)
        ensures
            r@ == self.spec_path(),
    {
        self.path.as_str()
    }

    /// Whether the listed entry is left out (see `skipped`).
    pub fn skip(&self, entry: &Entry) -> (r: bool)
        requires
            self.wf(),
        ensures
            r == skipped(self.spec_matcher()@, self.spec_excluded(), entry@),
    {
        let name = to_chars(entry.name.as_str());
        if name.len() > 0 && name[0] == '.' {
            return true;
        }
        if !entry.is_dir {
            return true;
        }
        self.matcher.is_exclude(Some(self.matcher.cwd()), &self.excluded, entry.path.as_str())
    }

    /// The paths of the listed entries that are archived, in listing order.
    pub fn plan(&self, entries: &Vec<Entry>) -> (r: Vec<String>)
        requires
            self.wf(),
        ensures
            r@.map_values(|d: String| d@) == planned(
                self.spec_matcher()@,
                self.spec_excluded(),
                entries@.map_values(|e: Entry| e@),
            ),
    {
        let ghost ev = entries@.map_values(|e: Entry| e@);
        let mut out: Vec<String> = Vec::new();
        let mut i: usize = 0;
        while i < entries.len()
            invariant
                self.wf(),
                i <= entries@.len(),
                ev == entries@.map_values(|e: Entry| e@),
                out@.map_values(|d: String| d@) == planned(
                    self.spec_matcher()@,
                    self.spec_excluded(),
                    ev.subrange(0, i as int),
                ),
            decreases entries.len() - i,
        {
            let e = &entries[i];
            proof {
                let pre = ev.subrange(0, i as int + 1);
                assert(pre.drop_last() =~= ev.subrange(0, i as int));
                assert(pre.last() == e@);
            }
            if !self.skip(e) {
                let ghost before = out@.map_values(|d: String| d@);
                out.push(e.path.clone());
                proof {
                    assert(out@.map_values(|d: String| d@) =~= before.push(e.path@));
                }
            }
            i = i + 1;
        }
        proof {
            assert(ev.subrange(0, entries@.len() as int) =~= ev);
        }
        out
    }
}

} // verus!
