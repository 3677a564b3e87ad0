//! Classification of a live path into one of the repository's three
//! namespaces, and the place inside the repository where it is mirrored.
use vstd::prelude::*;
use vstd::string::*;
use crate::text::{starts_with, has_prefix, slice, join2, join3};

verus! {

/// An absolute path: it begins with the separator.
pub open spec fn is_absolute(p: Seq<char>) -> bool {
    p.len() > 0 && p[0] == '/'
}

/// What remains of `path` below the directory `dir`, if `path` lies in it.
/// A directory written with a trailing separator is its own prefix; one
/// written without needs the separator after it, or `path` equal to it.
pub open spec fn strip_dir(path: Seq<char>, dir: Seq<char>) -> Option<Seq<char>> {
    if dir.len() > 0 && dir.last() == '/' {
        if starts_with(path, dir) {
            Some(path.skip(dir.len() as int))
        } else {
            None
        }
    } else if path == dir {
        Some(Seq::empty())
    } else if starts_with(path, dir.push('/')) {
        Some(path.skip(dir.len() as int + 1))
    } else {
        None
    }
}

/// `rel`, a relative path, joined onto `base` with one separator between.
pub open spec fn join_path_spec(base: Seq<char>, rel: Seq<char>) -> Seq<char> {
    if base.len() == 0 {
        rel
    } else if base.last() == '/' {
        base + rel
    } else {
        base + "/"@ + rel
    }
}

/// Joins the relative path `rel` onto `base`, adding a separator only where
/// `base` does not end with one.
pub fn join_path(base: &str, rel: &str) -> (r: String)
    ensures
        r@ == join_path_spec(base@, rel@),
{
    let n = base.unicode_len();
    if n == 0 {
        String::from_str(rel)
    } else if base.get_char(n - 1) == '/' {
        join2(base, rel)
    } else {
        join3(base, "/", rel)
    }
}

/// The namespace of a tracked file inside the repository, with the path
/// under which it is stored there.
pub ghost enum Location {
    XdgConfig(Seq<char>),
    HomeDir(Seq<char>),
    AbsoluteRoot(Seq<char>),
}

/// First match wins: the XDG config directory, then the home directory,
/// then the whole path under the root namespace.
pub open spec fn classify_spec(path: Seq<char>, xdg: Seq<char>, home: Seq<char>) -> Location {
    match strip_dir(path, xdg) {
        Some(rel) => Location::XdgConfig(rel),
        None => match strip_dir(path, home) {
            Some(rel) => Location::HomeDir(rel),
            None => Location::AbsoluteRoot(path),
        },
    }
}

/// Where a classified file lives below the repository root.
pub open spec fn destination_spec(loc: Location, root: Seq<char>) -> Seq<char> {
    match loc {
        Location::XdgConfig(rel) => root + "/xdg_config/"@ + rel,
        Location::HomeDir(rel) => root + "/homedir/"@ + rel,
        Location::AbsoluteRoot(p) => root + "/root"@ + p,
    }
}

/// The storage namespace of a live path and its path within that namespace.
pub enum RepositoryLocation {
    XdgConfig(String),
    HomeDir(String),
    AbsoluteRoot(String),
}

impl View for RepositoryLocation {
    type V = Location;

    open spec fn view(&self) -> Location {
        match self {
            RepositoryLocation::XdgConfig(s) => Location::XdgConfig(s@),
            RepositoryLocation::HomeDir(s) => Location::HomeDir(s@),
            RepositoryLocation::AbsoluteRoot(s) => Location::AbsoluteRoot(s@),
        }
    }
}

/// The part of `path` below `dir`, when `path` lies in `dir`.
pub fn strip_dir_exec(path: &str, dir: &str) -> (r: Option<String>)
    ensures
        match r {
            Some(s) => strip_dir(path@, dir@) == Some(s@),
            None => strip_dir(path@, dir@) is None,
        },
{
    let n = path.unicode_len();
    let m = dir.unicode_len();
    if m > 0 && dir.get_char(m - 1) == '/' {
        if has_prefix(path, dir) {
            return Some(slice(path, m, n));
        }
        return None;
    }
    if has_prefix(path, dir) {
        if n == m {
            assert(path@ =~= dir@);
            return Some(String::new());
        }
        if path.get_char(m) == '/' {
            assert(path@.subrange(0, m + 1) =~= dir@.push('/'));
            return Some(slice(path, m + 1, n));
        }
    }
    assert(path@ != dir@) by {
        if path@ == dir@ {
            assert(path@.subrange(0, m as int) =~= dir@);
        }
    }
    assert(path@ != dir@ ==> !starts_with(path@, dir@.push('/'))) by {
        if starts_with(path@, dir@.push('/')) {
            assert(path@.subrange(0, m as int) =~= path@.subrange(0, m + 1).subrange(0, m as int));
            assert(dir@.push('/')[m as int] == '/');
            assert(dir@.push('/').subrange(0, m as int) =~= dir@);
            assert(path@.subrange(0, m + 1)[m as int] == '/');
            assert(path@[m as int] == '/');
            assert(starts_with(path@, dir@));
        }
    }
    None
}

/// Classifies an absolute live path: inside the XDG config directory first,
/// then inside the home directory, else kept whole under the root namespace.
pub fn classify(path: &str, xdg_config_dir: &str, home_dir: &str) -> (r: RepositoryLocation)
    requires
        is_absolute(path@),
    ensures
        r@ == classify_spec(path@, xdg_config_dir@, home_dir@),
{
    match strip_dir_exec(path, xdg_config_dir) {
        Some(rel) => RepositoryLocation::XdgConfig(rel),
        None => match strip_dir_exec(path, home_dir) {
            Some(rel) => RepositoryLocation::HomeDir(rel),
            None => RepositoryLocation::AbsoluteRoot(String::from_str(path)),
        },
    }
}

impl RepositoryLocation {
    /// The path of this file inside the repository rooted at `repo_root`.
    pub fn destination(&self, repo_root: &str) -> (r: String)
        ensures
            r@ == destination_spec(self@, repo_root@),
    {
        match self {
            RepositoryLocation::XdgConfig(rel) => join3(repo_root, "/xdg_config/", rel.as_str()),
            RepositoryLocation::HomeDir(rel) => join3(repo_root, "/homedir/", rel.as_str()),
            RepositoryLocation::AbsoluteRoot(p) => join3(repo_root, "/root", p.as_str()),
        }
    }
}

/// Classification is total and ordered: every absolute path lands in exactly
/// one namespace, and a path inside the XDG config directory is classified
/// there even when that directory lies inside the home directory.
pub proof fn lemma_classify_priority(path: Seq<char>, xdg: Seq<char>, home: Seq<char>)
    requires
        is_absolute(path),
    ensures
        strip_dir(path, xdg) is Some ==> classify_spec(path, xdg, home) is XdgConfig,
        strip_dir(path, xdg) is None && strip_dir(path, home) is Some
            ==> classify_spec(path, xdg, home) is HomeDir,
        strip_dir(path, xdg) is None && strip_dir(path, home) is None
            ==> classify_spec(path, xdg, home) == Location::AbsoluteRoot(path),
        classify_spec(path, xdg, home) is XdgConfig
            || classify_spec(path, xdg, home) is HomeDir
            || classify_spec(path, xdg, home) is AbsoluteRoot,
{
}

} // verus!
