//! Path normalization and exclusion matching.
//!
//! Paths are compared after being made absolute, with `.` and `..` segments
//! collapsed, so an exclusion matches however the same directory was spelled.
//! Nothing here looks at the disk or the process environment: the home
//! directory and the working directory are handed in.
use vstd::prelude::*;
use path_absolutize::Absolutize;
use crate::error::ZipError;
use crate::text::{from_chars, to_chars};

verus! {

/// A Unix path that starts at the root.
pub open spec fn is_absolute(p: Seq<char>) -> bool {
    p.len() > 0 && p[0] == '/'
}

/// What path_absolutize makes of `path` resolved from the absolute directory
/// `base`.
pub uninterp spec fn absolutized(path: Seq<char>, base: Seq<char>) -> Seq<char>;

/// Relies on path_absolutize's `Absolutize::absolutize_from` (Unix version):
/// given an absolute base, it never fails and returns an absolute path
/// (a relative `path` is joined to `base`, then `.` and `..` are collapsed).
#[verifier::external_body]
fn absolutize_from(path: &str, base: &str) -> (r: String)
    requires
        is_absolute(base@),
    ensures
        r@ == absolutized(path@, base@),
        is_absolute(r@),
{
    match std::path::Path::new(path).absolutize_from(base) {
        Ok(p) => p.to_string_lossy().into_owned(),
        Err(_) => String::new(),
    }
}

/// Number of leading `/` of `s`.
pub open spec fn lead_slashes(s: Seq<char>) -> nat
    decreases s.len(),
{
    if s.len() > 0 && s[0] == '/' {
        1 + lead_slashes(s.drop_first())
    } else {
        0
    }
}

/// Where `p` starts with the home marker as its first segment (`~` alone, or
/// `~/...`), the rest of the path after that segment, relative.
pub open spec fn home_rest(p: Seq<char>) -> Option<Seq<char>> {
    if p.len() > 0 && p[0] == '~' && (p.len() == 1 || p[1] == '/') {
        let t = p.drop_first();
        Some(t.subrange(lead_slashes(t) as int, t.len() as int))
    } else {
        None
    }
}

proof fn lemma_lead_slashes(s: Seq<char>, k: int)
    requires
        0 <= k <= s.len(),
        forall|i: int| 0 <= i < k ==> #[trigger] s[i] == '/',
        k < s.len() ==> s[k] != '/',
    ensures
        lead_slashes(s) == k,
    decreases s.len(),
{
    if k > 0 {
        let d = s.drop_first();
        assert forall|i: int| 0 <= i < k - 1 implies #[trigger] d[i] == '/' by {
            assert(d[i] == s[i + 1]);
        }
        if k - 1 < d.len() {
            assert(d[k - 1] == s[k]);
        }
        lemma_lead_slashes(d, k - 1);
    }
}

/// Splits the home marker off `p`, as `home_rest` says.
fn strip_home(p: &str) -> (r: Option<String>)
    ensures
        match (r, home_rest(p@)) {
            (Some(a), Some(b)) => a@ == b,
            (None, None) => true,
            _ => false,
        },
{
    let cs = to_chars(p);
    let n = cs.len();
    if n > 0 && cs[0] == '~' && (n == 1 || cs[1] == '/') {
        let ghost t = cs@.drop_first();
        let mut k: usize = 1;
        while k < n && cs[k] == '/'
            invariant
                1 <= k <= n,
                n == cs@.len(),
                forall|i: int| 1 <= i < k ==> #[trigger] cs@[i] == '/',
            decreases n - k,
        {
            k = k + 1;
        }
        proof {
            assert forall|i: int| 0 <= i < k - 1 implies #[trigger] t[i] == '/' by {
                assert(t[i] == cs@[i + 1]);
            }
            if k - 1 < t.len() {
                assert(t[k - 1] == cs@[k as int]);
            }
            lemma_lead_slashes(t, k - 1);
        }
        let mut rest: Vec<char> = Vec::new();
        let mut i: usize = k;
        while i < n
            invariant
                k <= i <= n,
                n == cs@.len(),
                rest@ == cs@.subrange(k as int, i as int),
            decreases n - i,
        {
            rest.push(cs[i]);
            i = i + 1;
            proof {
                assert(rest@ =~= cs@.subrange(k as int, i as int));
            }
        }
        proof {
            assert(rest@ =~= t.subrange(lead_slashes(t) as int, t.len() as int));
        }
        Some(from_chars(&rest))
    } else {
        None
    }
}

/// Resolves paths against a home directory and a working directory, both
/// absolute.
#[derive(Debug, Clone)]
pub struct PathMatcher {
    home: String,
    cwd: String,
}

impl View for PathMatcher {
    /// The home directory and the working directory.
    type V = (Seq<char>, Seq<char>);

    closed spec fn view(&self) -> (Seq<char>, Seq<char>) {
        (self.home@, self.cwd@)
    }
}

/// The normalized form of `p`: after a home marker, resolved from the home
/// directory; else, with an explicit working directory `cwd`, resolved from
/// `cwd` (itself resolved from the process working directory `m.1`); else
/// resolved from the home directory.
pub open spec fn normalized(m: (Seq<char>, Seq<char>), cwd: Option<Seq<char>>, p: Seq<char>) -> Seq<
    char,
> {
    match home_rest(p) {
        Some(rest) => absolutized(rest, m.0),
        None => match cwd {
            Some(c) => absolutized(p, absolutized(c, m.1)),
            None => absolutized(p, m.0),
        },
    }
}

/// Whether `dir` is one of the `excluded` paths once both are normalized.
pub open spec fn excluded_by(
    m: (Seq<char>, Seq<char>),
    cwd: Option<Seq<char>>,
    excluded: Seq<Seq<char>>,
    dir: Seq<char>,
) -> bool {
    exists|i: int|
        0 <= i < excluded.len() && #[trigger] normalized(m, cwd, excluded[i]) == normalized(
            m,
            cwd,
            dir,
        )
}

/// The view of an optional string.
pub open spec fn opt_view(o: Option<&str>) -> Option<Seq<char>> {
    match o {
        Some(s) => Some(s@),
        None => None,
    }
}

impl PathMatcher {
    pub open spec fn wf(&self) -> bool {
        is_absolute(self@.0) && is_absolute(self@.1)
    }

    /// A matcher for the given home directory and process working directory.
    /// Fails with `PathResolution` when the home directory is unknown or
    /// either directory is not absolute.
    pub fn new(home: Option<String>, cwd: String) -> (r: Result<PathMatcher, ZipError>)
        ensures
            match home {
                Some(h) => if is_absolute(h@) && is_absolute(cwd@) {
                    r matches Ok(m) && m@ == (h@, cwd@) && m.wf()
                } else {
                    r matches Err(ZipError::PathResolution)
                },
                None => r matches Err(ZipError::PathResolution),
            },
    {
        match home {
            Some(h) => {
                let hs = to_chars(h.as_str());
                let cs = to_chars(cwd.as_str());
                if hs.len() > 0 && hs[0] == '/' && cs.len() > 0 && cs[0] == '/' {
                    Ok(PathMatcher { home: h, cwd })
                } else {
                    Err(ZipError::PathResolution)
                }
            },
            None => Err(ZipError::PathResolution),
        }
    }

    /// The home directory.
    pub fn home(&self) -> (r: &str)
        ensures
            r@ == self@.0,
    {
        self.home.as_str()
    }

    /// The process working directory.
    pub fn cwd(&self) -> (r: &str)
        ensures
            r@ == self@.1,
    {
        self.cwd.as_str()
    }

    /// The absolute, dot-free form of `path` (see `normalized`).
    pub fn absolute_path(&self, cwd: Option<&str>, path: &str) -> (r: String)
        requires
            self.wf(),
        ensures
            r@ == normalized(self@, opt_view(cwd), path@),
            is_absolute(r@),
    {
        match strip_home(path) {
            Some(rest) => absolutize_from(rest.as_str(), self.home.as_str()),
            None => match cwd {
                Some(c) => {
                    let base = absolutize_from(c, self.cwd.as_str());
                    absolutize_from(path, base.as_str())
                },
                None => absolutize_from(path, self.home.as_str()),
            },
        }
    }

    /// Whether `dir` names the same absolute path as one of `exclude`.
    /// An empty list excludes nothing.
    pub fn is_exclude(&self, cwd: Option<&str>, exclude: &Vec<String>, dir: &str) -> (r: bool)
        requires
            self.wf(),
        ensures
            r == excluded_by(self@, opt_view(cwd), exclude@.map_values(|e: String| e@), dir@),
            exclude@.len() == 0 ==> !r,
    {
        let ghost ev = exclude@.map_values(|e: String| e@);
        if exclude.len() == 0 {
            return false;
        }
        let target = self.absolute_path(cwd, dir);
        let mut i: usize = 0;
        while i < exclude.len()
            invariant
                self.wf(),
                i <= exclude@.len(),
                ev == exclude@.map_values(|e: String| e@),
                target@ == normalized(self@, opt_view(cwd), dir@),
                forall|j: int|
                    0 <= j < i ==> #[trigger] normalized(self@, opt_view(cwd), ev[j]) != target@,
            decreases exclude.len() - i,
        {
            let e = self.absolute_path(cwd, exclude[i].as_str());
            if e == target {
                assert(normalized(self@, opt_view(cwd), ev[i as int]) == target@);
                return true;
            }
            i = i + 1;
        }
        false
    }
}

} // verus!
