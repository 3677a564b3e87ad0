//! The link plan of one tracked file: where its mirror goes inside the
//! repository, which directories must exist first, and what to do about a
//! mirror that is already there.
use vstd::prelude::*;
use vstd::string::*;
use crate::text::slice;
use crate::paths::{is_absolute, classify, classify_spec, destination_spec};

verus! {

/// The index of the last separator in `p`, or -1 where it has none.
pub open spec fn last_sep(p: Seq<char>) -> int
    decreases p.len(),
{
    if p.len() == 0 {
        -1
    } else if p.last() == '/' {
        p.len() - 1
    } else {
        last_sep(p.drop_last())
    }
}

/// The directory that holds `p`: everything before its last separator.
pub open spec fn parent_spec(p: Seq<char>) -> Seq<char> {
    if last_sep(p) < 0 {
        Seq::empty()
    } else {
        p.subrange(0, last_sep(p))
    }
}

/// The directory that holds `p`.
pub fn parent_dir(p: &str) -> (r: String)
    ensures
        r@ == parent_spec(p@),
{
    let n = p.unicode_len();
    let mut k: usize = n;
    assert(p@.subrange(0, n as int) =~= p@);
    while k > 0 && p.get_char(k - 1) != '/'
        invariant
            k <= n,
            n == p@.len(),
            last_sep(p@) == last_sep(p@.subrange(0, k as int)),
        decreases k,
    {
        proof {
            assert(p@.subrange(0, k as int).drop_last() =~= p@.subrange(0, k - 1));
        }
        k = k - 1;
    }
    proof {
        if k == 0 {
            assert(p@.subrange(0, 0) =~= Seq::<char>::empty());
        }
    }
    if k == 0 {
        String::new()
    } else {
        slice(p, 0, k - 1)
    }
}

/// What materialising one tracked file does: make `dir`, then link
/// `source` to `dest`.
pub struct LinkPlan {
    pub source: String,
    pub dir: String,
    pub dest: String,
}

/// Where the mirror of `live` goes below `repo_root`.
pub open spec fn plan_dest(live: Seq<char>, root: Seq<char>, xdg: Seq<char>, home: Seq<char>) -> Seq<char> {
    destination_spec(classify_spec(live, xdg, home), root)
}

/// The plan for mirroring the absolute path `live` in the repository at
/// `repo_root`: its destination by classification, and that destination's
/// directory.
pub fn plan_link(live: &str, repo_root: &str, xdg_config_dir: &str, home_dir: &str) -> (r: LinkPlan)
    requires
        is_absolute(live@),
    ensures
        r.source@ == live@,
        r.dest@ == plan_dest(live@, repo_root@, xdg_config_dir@, home_dir@),
        r.dir@ == parent_spec(r.dest@),
{
    let loc = classify(live, xdg_config_dir, home_dir);
    let dest = loc.destination(repo_root);
    let dir = parent_dir(dest.as_str());
    LinkPlan { source: String::from_str(live), dir, dest }
}

/// What to do at a destination.
pub enum LinkAction {
    /// Nothing is there: link.
    Create,
    /// The same file is already there: nothing to do.
    Keep,
    /// Something else is there: put the link in its place.
    Replace,
}

/// Link where nothing is; keep the same file; replace anything else.
pub open spec fn link_action_spec(dest_exists: bool, same_file: bool) -> LinkAction {
    if !dest_exists {
        LinkAction::Create
    } else if same_file {
        LinkAction::Keep
    } else {
        LinkAction::Replace
    }
}

/// The decision at a destination, from whether something is there and
/// whether it is already the live file (same file or same content).
pub fn link_action(dest_exists: bool, same_file: bool) -> (r: LinkAction)
    ensures
        r == link_action_spec(dest_exists, same_file),
{
    if !dest_exists {
        LinkAction::Create
    } else if same_file {
        LinkAction::Keep
    } else {
        LinkAction::Replace
    }
}

/// Materialising twice is harmless: the plan depends on its inputs alone, so
/// the second run targets the same destination, directory and source as the
/// first; and where the first run has linked it (so the second finds the
/// same file at the destination), the second keeps it: no error, no change.
pub proof fn lemma_materialize_idempotent(
    live: Seq<char>,
    root: Seq<char>,
    xdg: Seq<char>,
    home: Seq<char>,
    first: LinkPlan,
    second: LinkPlan,
    dest_exists: bool,
    same_file: bool,
)
    requires
        is_absolute(live),
        first.source@ == live && first.dest@ == plan_dest(live, root, xdg, home)
            && first.dir@ == parent_spec(first.dest@),
        second.source@ == live && second.dest@ == plan_dest(live, root, xdg, home)
            && second.dir@ == parent_spec(second.dest@),
        dest_exists && same_file,
    ensures
        first.dest@ == second.dest@,
        first.dir@ == second.dir@,
        first.source@ == second.source@,
        link_action_spec(dest_exists, same_file) is Keep,
{
}

} // verus!
