//! The caller's choices: which archiving strategy, which directories to leave out.
use vstd::prelude::*;
use crate::error::ZipError;
use crate::text::{from_chars, split_chars, split_on, to_chars, trim_chars, trimmed};

verus! {

/// The archiving strategy chosen for a whole run.
#[derive(Debug, Clone, Copy, PartialEq, Eq, Structural)]
pub enum ZipType {
    /// Concurrent readers feeding one archive writer.
    AsyncZip,
    /// Incremental streaming compression.
    Zipper,
    /// Whole-directory compression on a blocking worker.
    Zip,
}

/// The strategy that a name selects, if any.
pub open spec fn zip_type_of(s: Seq<char>) -> Option<ZipType> {
    if s == "async_zip"@ {
        Some(ZipType::AsyncZip)
    } else if s == "self_async_zip"@ {
        Some(ZipType::Zipper)
    } else if s == "zip"@ {
        Some(ZipType::Zip)
    } else {
        None
    }
}

fn chars_equal(a: &Vec<char>, b: &Vec<char>) -> (r: bool)
    ensures
        r == (a@ == b@),
{
    if a.len() != b.len() {
        return false;
    }
    let mut i: usize = 0;
    while i < a.len()
        invariant
            a@.len() == b@.len(),
            i <= a@.len(),
            forall|j: int| 0 <= j < i ==> a@[j] == b@[j],
        decreases a.len() - i,
    {
        if a[i] != b[i] {
            return false;
        }
        i = i + 1;
    }
    proof {
        assert(a@ =~= b@);
    }
    true
}

/// Parses a strategy name: `async_zip`, `self_async_zip` or `zip`.
pub fn parse_zip_type(src: &str) -> (r: Result<ZipType, ZipError>)
    ensures
        zip_type_of(src@) matches Some(t) ==> r == Ok::<ZipType, ZipError>(t),
        zip_type_of(src@) is None ==> (r matches Err(ZipError::UnsupportedZipType(s)) && s@ == src@),
{
    let s = to_chars(src);
    let a = to_chars("async_zip");
    let b = to_chars("self_async_zip");
    let z = to_chars("zip");
    proof {
        reveal_strlit("async_zip");
        reveal_strlit("self_async_zip");
        reveal_strlit("zip");
    }
    if chars_equal(&s, &a) {
        Ok(ZipType::AsyncZip)
    } else if chars_equal(&s, &b) {
        Ok(ZipType::Zipper)
    } else if chars_equal(&s, &z) {
        Ok(ZipType::Zip)
    } else {
        Err(ZipError::UnsupportedZipType(from_chars(&s)))
    }
}

/// The trimmed, non-empty pieces among `parts`, in order.
pub open spec fn kept_pieces(parts: Seq<Seq<char>>) -> Seq<Seq<char>>
    decreases parts.len(),
{
    if parts.len() == 0 {
        Seq::empty()
    } else {
        let rest = kept_pieces(parts.drop_last());
        let t = trimmed(parts.last());
        if t.len() == 0 {
            rest
        } else {
            rest.push(t)
        }
    }
}

/// The directories named by a comma-separated list: each piece trimmed, empty
/// pieces dropped.
pub open spec fn dir_list(s: Seq<char>) -> Seq<Seq<char>> {
    kept_pieces(split_on(s, ','))
}

/// A list of directories given by the caller, to be left out of the run.
#[derive(Debug, Clone)]
pub struct Dirs(pub Vec<String>);

impl View for Dirs {
    type V = Seq<Seq<char>>;

    open spec fn view(&self) -> Seq<Seq<char>> {
        self.0@.map_values(|d: String| d@)
    }
}

impl Dirs {
    /// Reads a comma-separated list of directories. Surrounding white space is
    /// dropped from each piece, and so are pieces left empty: an empty list
    /// excludes nothing.
    pub fn parse(s: &str) -> (r: Dirs)
        ensures
            r@ == dir_list(s@),
    {
        let cs = to_chars(s);
        let parts = split_chars(&cs, ',');
        let ghost pv = parts@.map_values(|p: Vec<char>| p@);
        let mut out: Vec<String> = Vec::new();
        let mut i: usize = 0;
        while i < parts.len()
            invariant
                i <= parts@.len(),
                pv == parts@.map_values(|p: Vec<char>| p@),
                out@.map_values(|d: String| d@) == kept_pieces(pv.subrange(0, i as int)),
            decreases parts.len() - i,
        {
            let t = trim_chars(&parts[i]);
            proof {
                let pre = pv.subrange(0, i as int + 1);
                assert(pre.drop_last() =~= pv.subrange(0, i as int));
                assert(pre.last() == parts@[i as int]@);
            }
            if t.len() > 0 {
                let d = from_chars(&t);
                let ghost before = out@.map_values(|d: String| d@);
                out.push(d);
                proof {
                    assert(out@.map_values(|d: String| d@) =~= before.push(t@));
                }
            }
            i = i + 1;
        }
        proof {
            assert(pv.subrange(0, parts@.len() as int) =~= pv);
        }
        Dirs(out)
    }

    /// The directories, in the order given.
    pub fn dirs(&self) -> (r: &Vec<String>)
        ensures
            r@.map_values(|d: String| d@) == self@,
    {
        &self.0
    }
}

impl std::str::FromStr for Dirs {
    type Err = ZipError;

    fn from_str(s: &str) -> Result<Dirs, ZipError> {
        Ok(Dirs::parse(s))
    }
}

} // verus!
