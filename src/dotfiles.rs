//! Applications and their dotfiles: the catalogue of well-known locations,
//! resolution of each dotfile to the first location that exists, and the
//! removal of what stayed unresolved.
use vstd::prelude::*;
use vstd::string::*;
use crate::paths::{join_path, join_path_spec};

verus! {

/// One tracked file of an application.
pub struct DotFile {
    pub name: String,
    /// Where the file may live, in order of preference.
    pub possible_paths: Vec<String>,
    /// Where it was found on this device, if anywhere.
    pub actual_path: Option<String>,
}

/// A named group of dotfiles.
pub struct Application {
    pub name: String,
    pub dotfiles: Vec<DotFile>,
}

pub ghost struct DotModel {
    pub name: Seq<char>,
    pub possible: Seq<Seq<char>>,
    pub actual: Option<Seq<char>>,
}

pub ghost struct AppModel {
    pub name: Seq<char>,
    pub dotfiles: Seq<DotModel>,
}

pub open spec fn opt_view(o: Option<String>) -> Option<Seq<char>> {
    match o {
        Some(s) => Some(s@),
        None => None,
    }
}

pub open spec fn strs_view(v: Seq<String>) -> Seq<Seq<char>> {
    v.map_values(|s: String| s@)
}

impl View for DotFile {
    type V = DotModel;

    open spec fn view(&self) -> DotModel {
        DotModel {
            name: self.name@,
            possible: strs_view(self.possible_paths@),
            actual: opt_view(self.actual_path),
        }
    }
}

pub open spec fn dots_view(v: Seq<DotFile>) -> Seq<DotModel> {
    v.map_values(|d: DotFile| d@)
}

impl View for Application {
    type V = AppModel;

    open spec fn view(&self) -> AppModel {
        AppModel { name: self.name@, dotfiles: dots_view(self.dotfiles@) }
    }
}

pub open spec fn apps_view(v: Seq<Application>) -> Seq<AppModel> {
    v.map_values(|a: Application| a@)
}

pub open spec fn is_resolved(d: DotModel) -> bool {
    d.actual is Some
}

pub open spec fn is_nonempty(a: AppModel) -> bool {
    a.dotfiles.len() > 0
}

/// An application with its unresolved dotfiles left out.
pub open spec fn keep_resolved(a: AppModel) -> AppModel {
    AppModel { name: a.name, dotfiles: a.dotfiles.filter(|d: DotModel| is_resolved(d)) }
}

/// Unresolved dotfiles dropped, then the applications left without any.
pub open spec fn filter_resolved_spec(apps: Seq<AppModel>) -> Seq<AppModel> {
    apps.map_values(|a: AppModel| keep_resolved(a)).filter(|a: AppModel| is_nonempty(a))
}

/// Every dotfile of every application has a location.
pub open spec fn all_resolved(apps: Seq<AppModel>) -> bool {
    forall|i: int, j: int|
        0 <= i < apps.len() && 0 <= j < apps[i].dotfiles.len()
            ==> #[trigger] apps[i].dotfiles[j].actual is Some
}

proof fn lemma_filter_step<A>(s: Seq<A>, k: int, p: spec_fn(A) -> bool)
    requires
        0 <= k < s.len(),
    ensures
        s.take(k + 1).filter(p) == if p(s[k]) {
            s.take(k).filter(p).push(s[k])
        } else {
            s.take(k).filter(p)
        },
{
    assert(s.take(k + 1).drop_last() =~= s.take(k));
    reveal_with_fuel(Seq::filter, 1);
}

/// The dotfiles of `ds` that have a location, in their order.
fn keep_resolved_dotfiles(ds: Vec<DotFile>) -> (r: Vec<DotFile>)
    ensures
        dots_view(r@) == dots_view(ds@).filter(|d: DotModel| is_resolved(d)),
{
    let ghost orig = dots_view(ds@);
    let mut rest = ds;
    let mut out: Vec<DotFile> = Vec::new();
    let ghost mut k: int = 0;
    while rest.len() > 0
        invariant
            0 <= k <= orig.len(),
            dots_view(rest@) =~= orig.skip(k),
            dots_view(out@) == orig.take(k).filter(|d: DotModel| is_resolved(d)),
        decreases rest.len(),
    {
        let ghost before = rest@;
        assert(dots_view(before).len() == before.len());
        assert(orig.skip(k)[0] == orig[k]);
        assert(dots_view(before)[0] == orig[k]);
        let d = rest.remove(0);
        proof {
            assert(d == before[0]);
            assert forall|i: int| 0 <= i < rest@.len() implies #[trigger] dots_view(rest@)[i] == orig.skip(k + 1)[i] by {
                assert(rest@[i] == before[i + 1]);
                assert(dots_view(before)[i + 1] == orig.skip(k)[i + 1]);
            }
            assert(dots_view(rest@) =~= orig.skip(k + 1));
            lemma_filter_step(orig, k, |d: DotModel| is_resolved(d));
        }
        if d.actual_path.is_some() {
            out.push(d);
            proof {
                assert(dots_view(out@) =~= orig.take(k).filter(|d: DotModel| is_resolved(d)).push(orig[k]));
            }
        }
        proof {
            k = k + 1;
        }
    }
    assert(orig.take(k) =~= orig);
    out
}

/// Drops every dotfile without a location, then every application left
/// with no dotfile; the order of what stays is kept.
pub fn filter_resolved(apps: Vec<Application>) -> (r: Vec<Application>)
    ensures
        apps_view(r@) == filter_resolved_spec(apps_view(apps@)),
{
    let ghost orig = apps_view(apps@);
    let ghost kept = orig.map_values(|a: AppModel| keep_resolved(a));
    let mut rest = apps;
    let mut out: Vec<Application> = Vec::new();
    let ghost mut k: int = 0;
    while rest.len() > 0
        invariant
            0 <= k <= orig.len(),
            kept.len() == orig.len(),
            forall|i: int| 0 <= i < orig.len() ==> #[trigger] kept[i] == keep_resolved(orig[i]),
            apps_view(rest@) =~= orig.skip(k),
            apps_view(out@) == kept.take(k).filter(|a: AppModel| is_nonempty(a)),
        decreases rest.len(),
    {
        let ghost before = rest@;
        assert(apps_view(before).len() == before.len());
        assert(orig.skip(k)[0] == orig[k]);
        assert(apps_view(before)[0] == orig[k]);
        let a = rest.remove(0);
        proof {
            assert(a == before[0]);
            assert forall|i: int| 0 <= i < rest@.len() implies #[trigger] apps_view(rest@)[i] == orig.skip(k + 1)[i] by {
                assert(rest@[i] == before[i + 1]);
                assert(apps_view(before)[i + 1] == orig.skip(k)[i + 1]);
            }
            assert(apps_view(rest@) =~= orig.skip(k + 1));
            lemma_filter_step(kept, k, |a: AppModel| is_nonempty(a));
        }
        let Application { name, dotfiles } = a;
        let ds = keep_resolved_dotfiles(dotfiles);
        if ds.len() > 0 {
            let app = Application { name, dotfiles: ds };
            assert(app@ == kept[k]);
            out.push(app);
            proof {
                assert(apps_view(out@) =~= kept.take(k).filter(|a: AppModel| is_nonempty(a)).push(kept[k]));
            }
        }
        proof {
            k = k + 1;
        }
    }
    assert(kept.take(k) =~= kept);
    out
}

/// The first of `paths`, from index `i` on, whose flag in `exists` is set.
pub open spec fn first_existing(paths: Seq<Seq<char>>, exists: Seq<bool>, i: int) -> Option<Seq<char>>
    decreases paths.len() - i,
{
    if i < 0 || i >= paths.len() {
        None
    } else if exists[i] {
        Some(paths[i])
    } else {
        first_existing(paths, exists, i + 1)
    }
}

/// A location picked by `first_existing` is one of the candidates, at or
/// after `i`, whose flag is set, and every candidate before it was flagged
/// as absent.
pub proof fn lemma_first_existing_is_candidate(paths: Seq<Seq<char>>, exists: Seq<bool>, i: int)
    requires
        0 <= i,
        exists.len() == paths.len(),
        first_existing(paths, exists, i) is Some,
    ensures
        exists|k: int| #![trigger paths[k]] i <= k < paths.len() && exists[k]
            && first_existing(paths, exists, i) == Some(paths[k])
            && forall|m: int| i <= m < k ==> !#[trigger] exists[m],
    decreases paths.len() - i,
{
    if exists[i] {
        assert(paths[i] == paths[i]);
    } else {
        lemma_first_existing_is_candidate(paths, exists, i + 1);
        let k = choose|k: int| #![trigger paths[k]] i + 1 <= k < paths.len() && exists[k]
            && first_existing(paths, exists, i + 1) == Some(paths[k])
            && forall|m: int| i + 1 <= m < k ==> !#[trigger] exists[m];
        assert(forall|m: int| i <= m < k ==> !#[trigger] exists[m]);
    }
}

/// Gives `dotfile` the first of its possible paths that exists, as told by
/// `exists` (one flag per possible path), or no location if none does.
pub fn resolve(dotfile: &mut DotFile, exists: &Vec<bool>)
    requires
        exists@.len() == old(dotfile).possible_paths@.len(),
    ensures
        final(dotfile).name == old(dotfile).name,
        final(dotfile).possible_paths == old(dotfile).possible_paths,
        final(dotfile)@.actual == first_existing(old(dotfile)@.possible, exists@, 0),
{
    let n = dotfile.possible_paths.len();
    let mut i: usize = 0;
    while i < n
        invariant
            n == dotfile.possible_paths@.len(),
            n == exists@.len(),
            i <= n,
            dotfile.name == old(dotfile).name,
            dotfile.possible_paths == old(dotfile).possible_paths,
            first_existing(dotfile@.possible, exists@, 0) == first_existing(dotfile@.possible, exists@, i as int),
        decreases n - i,
    {
        if exists[i] {
            let p = dotfile.possible_paths[i].clone();
            dotfile.actual_path = Some(p);
            return;
        }
        i = i + 1;
    }
    dotfile.actual_path = None;
}

/// The catalogue of well-known dotfiles, with nothing resolved yet. The
/// second i3 candidate is the absolute `/.i3/config`: it is joined onto the
/// home directory as an absolute path, which replaces that directory.
pub open spec fn catalogue(config_dir: Seq<char>) -> Seq<AppModel> {
    seq![AppModel {
        name: "i3"@,
        dotfiles: seq![DotModel {
            name: "config"@,
            possible: seq![join_path_spec(config_dir, "i3/config"@), "/.i3/config"@, "/etc/i3/config"@],
            actual: None,
        }],
    }]
}

/// The well-known dotfiles of each application, their candidate locations
/// built from the user's config directory.
pub fn default_dotfiles(config_dir: &str) -> (r: Vec<Application>)
    ensures
        apps_view(r@) == catalogue(config_dir@),
{
    let possible_paths = vec![
        join_path(config_dir, "i3/config"),
        String::from_str("/.i3/config"),
        String::from_str("/etc/i3/config"),
    ];
    let config = DotFile { name: String::from_str("config"), possible_paths, actual_path: None };
    let i3 = Application { name: String::from_str("i3"), dotfiles: vec![config] };
    let r = vec![i3];
    assert(strs_view(r@[0].dotfiles@[0].possible_paths@) =~= catalogue(config_dir@)[0].dotfiles[0].possible);
    assert(dots_view(r@[0].dotfiles@) =~= catalogue(config_dir@)[0].dotfiles);
    assert(apps_view(r@) =~= catalogue(config_dir@));
    r
}

/// Relies on dirs::config_dir: the user's configuration directory, when the
/// platform knows one and its path is valid Unicode.
#[verifier::external_body]
fn user_config_dir() -> (r: Option<String>) {
    dirs::config_dir().and_then(|p| p.into_os_string().into_string().ok())
}

/// Relies on std::path::Path::exists: whether something is at `p` now.
#[verifier::external_body]
fn path_exists(p: &str) -> (r: bool) {
    std::path::Path::new(p).exists()
}

/// Applications whose dotfiles all have a location, and none empty.
pub open spec fn is_found_list(apps: Seq<AppModel>) -> bool {
    &&& all_resolved(apps)
    &&& forall|i: int| 0 <= i < apps.len() ==> #[trigger] apps[i].dotfiles.len() > 0
}

proof fn lemma_filter_resolved_found(apps: Seq<AppModel>)
    ensures
        is_found_list(filter_resolved_spec(apps)),
{
    broadcast use vstd::seq_lib::group_filter_ensures;

    let pa = |a: AppModel| is_nonempty(a);
    let pd = |d: DotModel| is_resolved(d);
    let kept = apps.map_values(|a: AppModel| keep_resolved(a));
    let r = filter_resolved_spec(apps);
    assert(r == kept.filter(pa));
    assert forall|i: int, j: int| 0 <= i < r.len() && 0 <= j < r[i].dotfiles.len()
        implies #[trigger] r[i].dotfiles[j].actual is Some by {
        let a = r[i];
        assert(r.contains(a));
        kept.lemma_filter_contains_rev(pa, a);
        let t = choose|t: int| 0 <= t < kept.len() && kept[t] == a;
        assert(a.dotfiles == apps[t].dotfiles.filter(pd));
        assert(pd(a.dotfiles[j]));
    }
    assert forall|i: int| 0 <= i < r.len() implies #[trigger] r[i].dotfiles.len() > 0 by {
        assert(pa(r[i]));
    }
}

/// Filtering keeps exactly the resolved dotfiles: an application none of
/// whose dotfiles is resolved is absent from the result, and one with a
/// resolved dotfile stays, with only its resolved dotfiles.
pub proof fn lemma_filtering(apps: Seq<AppModel>)
    ensures
        is_found_list(filter_resolved_spec(apps)),
        forall|k: int| 0 <= k < filter_resolved_spec(apps).len()
            ==> apps.map_values(|a: AppModel| keep_resolved(a)).contains(#[trigger] filter_resolved_spec(apps)[k]),
        forall|i: int| 0 <= i < apps.len() && (exists|j: int| 0 <= j < apps[i].dotfiles.len()
            && #[trigger] apps[i].dotfiles[j].actual is Some)
            ==> filter_resolved_spec(apps).contains(#[trigger] keep_resolved(apps[i])),
        forall|i: int| 0 <= i < apps.len() && (forall|j: int| 0 <= j < apps[i].dotfiles.len()
            ==> #[trigger] apps[i].dotfiles[j].actual is None)
            ==> !filter_resolved_spec(apps).contains(#[trigger] keep_resolved(apps[i])),
{
    broadcast use vstd::seq_lib::group_filter_ensures;

    lemma_filter_resolved_found(apps);
    let pa = |a: AppModel| is_nonempty(a);
    let pd = |d: DotModel| is_resolved(d);
    let kept = apps.map_values(|a: AppModel| keep_resolved(a));
    let r = filter_resolved_spec(apps);
    assert(r == kept.filter(pa));
    assert forall|i: int| 0 <= i < apps.len() && (exists|j: int| 0 <= j < apps[i].dotfiles.len()
        && #[trigger] apps[i].dotfiles[j].actual is Some)
        implies r.contains(#[trigger] keep_resolved(apps[i])) by {
        let j = choose|j: int| 0 <= j < apps[i].dotfiles.len() && #[trigger] apps[i].dotfiles[j].actual is Some;
        assert(pd(apps[i].dotfiles[j]));
        assert(apps[i].dotfiles.filter(pd).contains(apps[i].dotfiles[j]));
        assert(kept[i] == keep_resolved(apps[i]));
        assert(pa(kept[i]));
        assert(kept.filter(pa).contains(kept[i]));
    }
    assert forall|i: int| 0 <= i < apps.len() && (forall|j: int| 0 <= j < apps[i].dotfiles.len()
        ==> #[trigger] apps[i].dotfiles[j].actual is None)
        implies !r.contains(#[trigger] keep_resolved(apps[i])) by {
        let ds = apps[i].dotfiles.filter(pd);
        if ds.len() > 0 {
            assert(pd(ds[0]));
            assert(ds.contains(ds[0]));
            apps[i].dotfiles.lemma_filter_contains_rev(pd, ds[0]);
            let j = choose|j: int| 0 <= j < apps[i].dotfiles.len() && apps[i].dotfiles[j] == ds[0];
            assert(apps[i].dotfiles[j].actual is None);
        }
        if r.contains(keep_resolved(apps[i])) {
            let k = choose|k: int| 0 <= k < r.len() && r[k] == keep_resolved(apps[i]);
            assert(r[k].dotfiles.len() > 0);
        }
    }
    assert forall|k: int| 0 <= k < r.len() implies kept.contains(#[trigger] r[k]) by {
        assert(r.contains(r[k]));
        kept.lemma_filter_contains_rev(pa, r[k]);
    }
}

/// A dotfile located at the first of its candidates whose flag is set.
pub open spec fn probe_dot(d: DotModel, flags: Seq<bool>) -> DotModel {
    DotModel { name: d.name, possible: d.possible, actual: first_existing(d.possible, flags, 0) }
}

/// Every dotfile of every application located by its own flags:
/// `flags[i][j][k]` tells whether candidate `k` of dotfile `j` of
/// application `i` exists.
pub open spec fn probe_spec(apps: Seq<AppModel>, flags: Seq<Seq<Seq<bool>>>) -> Seq<AppModel> {
    Seq::new(apps.len(), |i: int| AppModel {
        name: apps[i].name,
        dotfiles: Seq::new(apps[i].dotfiles.len(), |j: int| probe_dot(apps[i].dotfiles[j], flags[i][j])),
    })
}

/// One flag per candidate of every dotfile.
pub open spec fn flags_fit(apps: Seq<AppModel>, flags: Seq<Seq<Seq<bool>>>) -> bool {
    &&& flags.len() == apps.len()
    &&& forall|i: int| 0 <= i < apps.len() ==> #[trigger] flags[i].len() == apps[i].dotfiles.len()
    &&& forall|i: int, j: int| 0 <= i < apps.len() && 0 <= j < apps[i].dotfiles.len()
        ==> #[trigger] flags[i][j].len() == apps[i].dotfiles[j].possible.len()
}

pub open spec fn flags_view(v: Seq<Vec<Vec<bool>>>) -> Seq<Seq<Seq<bool>>> {
    v.map_values(|a: Vec<Vec<bool>>| a@.map_values(|b: Vec<bool>| b@))
}

/// A copy of `v`.
fn copy_strings(v: &Vec<String>) -> (r: Vec<String>)
    ensures
        strs_view(r@) == strs_view(v@),
{
    let mut r: Vec<String> = Vec::new();
    let mut k: usize = 0;
    while k < v.len()
        invariant
            k <= v@.len(),
            strs_view(r@) == strs_view(v@).take(k as int),
        decreases v@.len() - k,
    {
        let ghost before = r@;
        r.push(v[k].clone());
        assert(strs_view(r@) =~= strs_view(before).push(v@[k as int]@));
        assert(strs_view(v@).take(k + 1) =~= strs_view(v@).take(k as int).push(v@[k as int]@));
        k = k + 1;
    }
    assert(strs_view(v@).take(k as int) =~= strs_view(v@));
    r
}

/// A copy of `d` located at the first candidate whose flag is set.
pub fn probe_dotfile(d: &DotFile, flags: &Vec<bool>) -> (r: DotFile)
    requires
        flags@.len() == d.possible_paths@.len(),
    ensures
        r@ == probe_dot(d@, flags@),
{
    let mut c = DotFile { name: d.name.clone(), possible_paths: copy_strings(&d.possible_paths), actual_path: None };
    resolve(&mut c, flags);
    c
}

/// Every dotfile of `apps` located by its flags, in order: each at the first
/// of its candidates found to exist, or nowhere.
pub fn probe_all(apps: &Vec<Application>, flags: &Vec<Vec<Vec<bool>>>) -> (r: Vec<Application>)
    requires
        flags_fit(apps_view(apps@), flags_view(flags@)),
    ensures
        apps_view(r@) == probe_spec(apps_view(apps@), flags_view(flags@)),
{
    let ghost av = apps_view(apps@);
    let ghost fv = flags_view(flags@);
    let ghost want = probe_spec(av, fv);
    let mut out: Vec<Application> = Vec::new();
    let mut i: usize = 0;
    while i < apps.len()
        invariant
            i <= apps@.len(),
            av == apps_view(apps@),
            fv == flags_view(flags@),
            want == probe_spec(av, fv),
            flags_fit(av, fv),
            apps_view(out@) == want.take(i as int),
        decreases apps@.len() - i,
    {
        let app = &apps[i];
        assert(flags@[i as int]@.len() == fv[i as int].len());
        let mut ds: Vec<DotFile> = Vec::new();
        let mut j: usize = 0;
        while j < app.dotfiles.len()
            invariant
                i < apps@.len(),
                app == &apps@[i as int],
                av == apps_view(apps@),
                fv == flags_view(flags@),
                want == probe_spec(av, fv),
                flags_fit(av, fv),
                j <= app.dotfiles@.len(),
                dots_view(ds@) == want[i as int].dotfiles.take(j as int),
            decreases app.dotfiles@.len() - j,
        {
            assert(fv[i as int] == flags@[i as int]@.map_values(|b: Vec<bool>| b@));
            assert(fv[i as int].len() == av[i as int].dotfiles.len());
            assert(flags@[i as int]@[j as int]@ == fv[i as int][j as int]);
            assert(fv[i as int][j as int].len() == av[i as int].dotfiles[j as int].possible.len());
            let d = probe_dotfile(&app.dotfiles[j], &flags[i][j]);
            let ghost before = ds@;
            ds.push(d);
            assert(dots_view(ds@) =~= dots_view(before).push(d@));
            assert(want[i as int].dotfiles.take(j + 1) =~= want[i as int].dotfiles.take(j as int).push(d@));
            j = j + 1;
        }
        assert(want[i as int].dotfiles.take(j as int) =~= want[i as int].dotfiles);
        let a = Application { name: app.name.clone(), dotfiles: ds };
        let ghost before = out@;
        out.push(a);
        assert(apps_view(out@) =~= apps_view(before).push(a@));
        assert(want.take(i + 1) =~= want.take(i as int).push(a@));
        i = i + 1;
    }
    assert(want.take(i as int) =~= want);
    out
}

/// The well-known dotfiles found on this device: the catalogue with each
/// dotfile located at the first of its candidates that exists, then without
/// the dotfiles found nowhere and the applications left empty. `None` where
/// the platform gives no config directory (or none in Unicode).
pub fn get_found_dotfiles() -> (r: Option<Vec<Application>>)
    ensures
        match r {
            Some(v) => is_found_list(apps_view(v@)) && exists|cd: Seq<char>, fl: Seq<Seq<Seq<bool>>>|
                #[trigger] flags_fit(catalogue(cd), fl)
                    && apps_view(v@) == filter_resolved_spec(probe_spec(catalogue(cd), fl)),
            None => true,
        },
{
    let config_dir = match user_config_dir() {
        Some(d) => d,
        None => return None,
    };
    let apps = default_dotfiles(config_dir.as_str());
    let ghost av = apps_view(apps@);
    let mut flags: Vec<Vec<Vec<bool>>> = Vec::new();
    let mut i: usize = 0;
    while i < apps.len()
        invariant
            i <= apps@.len(),
            av == apps_view(apps@),
            flags@.len() == i,
            forall|a: int| 0 <= a < i ==> #[trigger] flags@[a]@.len() == av[a].dotfiles.len(),
            forall|a: int, b: int| 0 <= a < i && 0 <= b < av[a].dotfiles.len()
                ==> #[trigger] flags@[a]@[b]@.len() == av[a].dotfiles[b].possible.len(),
        decreases apps@.len() - i,
    {
        let app = &apps[i];
        let mut per_app: Vec<Vec<bool>> = Vec::new();
        let mut j: usize = 0;
        while j < app.dotfiles.len()
            invariant
                i < apps@.len(),
                app == &apps@[i as int],
                av == apps_view(apps@),
                j <= app.dotfiles@.len(),
                per_app@.len() == j,
                forall|b: int| 0 <= b < j ==> #[trigger] per_app@[b]@.len() == av[i as int].dotfiles[b].possible.len(),
            decreases app.dotfiles@.len() - j,
        {
            let d = &app.dotfiles[j];
            let mut exists: Vec<bool> = Vec::new();
            let mut k: usize = 0;
            while k < d.possible_paths.len()
                invariant
                    k <= d.possible_paths@.len(),
                    exists@.len() == k,
                decreases d.possible_paths@.len() - k,
            {
                exists.push(path_exists(d.possible_paths[k].as_str()));
                k = k + 1;
            }
            assert(d@ == av[i as int].dotfiles[j as int]);
            per_app.push(exists);
            j = j + 1;
        }
        flags.push(per_app);
        i = i + 1;
    }
    let ghost fv = flags_view(flags@);
    assert(flags_fit(av, fv)) by {
        assert forall|a: int| 0 <= a < av.len() implies #[trigger] fv[a].len() == av[a].dotfiles.len() by {
            assert(fv[a] == flags@[a]@.map_values(|b: Vec<bool>| b@));
        }
        assert forall|a: int, b: int| 0 <= a < av.len() && 0 <= b < av[a].dotfiles.len()
            implies #[trigger] fv[a][b].len() == av[a].dotfiles[b].possible.len() by {
            assert(fv[a] == flags@[a]@.map_values(|b: Vec<bool>| b@));
            assert(fv[a][b] == flags@[a]@[b]@);
        }
    }
    let probed = probe_all(&apps, &flags);
    let r = filter_resolved(probed);
    proof {
        lemma_filter_resolved_found(apps_view(probed@));
        assert(flags_fit(catalogue(config_dir@), fv));
    }
    Some(r)
}

} // verus!
