//! The manifest: a line-oriented text naming, under comment headers, the
//! live paths that the repository mirrors.
use vstd::prelude::*;
use vstd::string::*;
use crate::text::{starts_with, has_prefix, slice, join2};
use crate::paths::is_absolute;
use crate::dotfiles::{Application, AppModel, DotModel, apps_view, all_resolved};

verus! {

/// One line of a manifest.
pub enum ManifestLine {
    /// `#` followed by free text.
    Comment(String),
    /// `# ` followed by an application's name.
    ApplicationHeader(String),
    /// `## ` followed by a dotfile's name.
    EntryHeader(String),
    /// Any line not starting with `#`: a live path.
    PathLine(String),
}

pub ghost enum LineModel {
    Comment(Seq<char>),
    ApplicationHeader(Seq<char>),
    EntryHeader(Seq<char>),
    PathLine(Seq<char>),
}

impl View for ManifestLine {
    type V = LineModel;

    open spec fn view(&self) -> LineModel {
        match self {
            ManifestLine::Comment(s) => LineModel::Comment(s@),
            ManifestLine::ApplicationHeader(s) => LineModel::ApplicationHeader(s@),
            ManifestLine::EntryHeader(s) => LineModel::EntryHeader(s@),
            ManifestLine::PathLine(s) => LineModel::PathLine(s@),
        }
    }
}

pub open spec fn lines_view(v: Seq<ManifestLine>) -> Seq<LineModel> {
    v.map_values(|l: ManifestLine| l@)
}

/// The text of one line, without its terminating newline.
pub open spec fn line_text(l: LineModel) -> Seq<char> {
    match l {
        LineModel::Comment(t) => "#"@ + t,
        LineModel::ApplicationHeader(n) => "# "@ + n,
        LineModel::EntryHeader(n) => "## "@ + n,
        LineModel::PathLine(p) => p,
    }
}

/// How the text of one line reads.
pub open spec fn parse_line(l: Seq<char>) -> LineModel {
    if starts_with(l, "## "@) {
        LineModel::EntryHeader(l.skip(3))
    } else if starts_with(l, "# "@) {
        LineModel::ApplicationHeader(l.skip(2))
    } else if starts_with(l, "#"@) {
        LineModel::Comment(l.skip(1))
    } else {
        LineModel::PathLine(l)
    }
}

/// Lines joined, each followed by a newline.
pub open spec fn lines_text(ls: Seq<Seq<char>>) -> Seq<char>
    decreases ls.len(),
{
    if ls.len() == 0 {
        Seq::empty()
    } else {
        lines_text(ls.drop_last()) + ls.last() + "\n"@
    }
}

/// The index of the first newline at or after `i`, or the length of `t`.
pub open spec fn line_end(t: Seq<char>, i: int) -> int
    decreases t.len() - i,
{
    if i < 0 || i >= t.len() || t[i] == '\n' {
        i
    } else {
        line_end(t, i + 1)
    }
}

/// The lines of `t` from index `i` on; a last line without a newline counts.
pub open spec fn split_from(t: Seq<char>, i: int) -> Seq<Seq<char>>
    decreases t.len() - i,
{
    if i < 0 || i >= t.len() {
        Seq::empty()
    } else {
        let e = line_end(t, i);
        if e < i || e >= t.len() {
            seq![t.subrange(i, e)]
        } else {
            seq![t.subrange(i, e)] + split_from(t, e + 1)
        }
    }
}

/// The manifest lines of a text.
pub open spec fn parse_spec(t: Seq<char>) -> Seq<LineModel> {
    split_from(t, 0).map_values(|l: Seq<char>| parse_line(l))
}

/// The text of a sequence of manifest lines.
pub open spec fn serialize_lines_spec(ls: Seq<LineModel>) -> Seq<char> {
    lines_text(ls.map_values(|l: LineModel| line_text(l)))
}

proof fn lemma_line_end(t: Seq<char>, i: int)
    requires
        0 <= i <= t.len(),
    ensures
        i <= line_end(t, i) <= t.len(),
        line_end(t, i) < t.len() ==> t[line_end(t, i)] == '\n',
        forall|k: int| i <= k < line_end(t, i) ==> t[k] != '\n',
    decreases t.len() - i,
{
    if i < t.len() && t[i] != '\n' {
        lemma_line_end(t, i + 1);
    }
}

proof fn lemma_line_text_parse(l: Seq<char>)
    ensures
        line_text(parse_line(l)) == l,
{
    reveal_strlit("## ");
    reveal_strlit("# ");
    reveal_strlit("#");
    if starts_with(l, "## "@) {
        assert(l =~= "## "@ + l.skip(3));
    } else if starts_with(l, "# "@) {
        assert(l =~= "# "@ + l.skip(2));
    } else if starts_with(l, "#"@) {
        assert(l =~= "#"@ + l.skip(1));
    }
}

/// Classifies one line of text.
pub fn parse_line_exec(l: &str) -> (r: ManifestLine)
    ensures
        r@ == parse_line(l@),
{
    let n = l.unicode_len();
    if has_prefix(l, "## ") {
        proof { reveal_strlit("## "); }
        ManifestLine::EntryHeader(slice(l, 3, n))
    } else if has_prefix(l, "# ") {
        proof { reveal_strlit("# "); }
        ManifestLine::ApplicationHeader(slice(l, 2, n))
    } else if has_prefix(l, "#") {
        proof { reveal_strlit("#"); }
        ManifestLine::Comment(slice(l, 1, n))
    } else {
        ManifestLine::PathLine(String::from_str(l))
    }
}

/// Reads a manifest text into its lines. A last line without a newline is
/// read like the others; parsing never fails.
pub fn parse(text: &str) -> (r: Vec<ManifestLine>)
    ensures
        lines_view(r@) == parse_spec(text@),
{
    let ghost t = text@;
    let n = text.unicode_len();
    let mut out: Vec<ManifestLine> = Vec::new();
    let mut i: usize = 0;
    while i < n
        invariant
            n == t.len(),
            t == text@,
            i <= n,
            lines_view(out@) + split_from(t, i as int).map_values(|l: Seq<char>| parse_line(l))
                == parse_spec(t),
        decreases n - i,
    {
        let mut e: usize = i;
        while e < n && text.get_char(e) != '\n'
            invariant
                n == t.len(),
                t == text@,
                i <= e <= n,
                line_end(t, i as int) == line_end(t, e as int),
            decreases n - e,
        {
            e = e + 1;
        }
        let line = slice(text, i, e);
        let ml = parse_line_exec(line.as_str());
        let ghost before = out@;
        out.push(ml);
        proof {
            let pl = |l: Seq<char>| parse_line(l);
            lemma_line_end(t, i as int);
            assert(line_end(t, i as int) == e);
            let rest = if e >= n { Seq::<Seq<char>>::empty() } else { split_from(t, e + 1) };
            assert(split_from(t, i as int) == seq![t.subrange(i as int, e as int)] + rest);
            assert(split_from(t, i as int).map_values(pl)
                =~= seq![parse_line(t.subrange(i as int, e as int))] + rest.map_values(pl));
            assert(lines_view(out@) =~= lines_view(before).push(ml@));
            if e >= n {
                assert(split_from(t, n as int) =~= Seq::<Seq<char>>::empty());
            }
            assert(lines_view(out@) + rest.map_values(pl)
                =~= lines_view(before) + split_from(t, i as int).map_values(pl));
        }
        if e == n {
            i = n;
        } else {
            i = e + 1;
        }
    }
    proof {
        assert(split_from(t, i as int).map_values(|l: Seq<char>| parse_line(l)) =~= Seq::<LineModel>::empty());
        assert(lines_view(out@) =~= lines_view(out@) + Seq::<LineModel>::empty());
    }
    out
}

/// The lines that record one dotfile: its name, then its location.
pub open spec fn entry_lines(ds: Seq<DotModel>) -> Seq<LineModel>
    decreases ds.len(),
{
    if ds.len() == 0 {
        Seq::empty()
    } else {
        entry_lines(ds.drop_last()) + seq![
            LineModel::EntryHeader(ds.last().name),
            LineModel::PathLine(ds.last().actual.unwrap()),
        ]
    }
}

/// The lines that record one application: its header, then its dotfiles.
pub open spec fn app_lines(a: AppModel) -> Seq<LineModel> {
    seq![LineModel::ApplicationHeader(a.name)] + entry_lines(a.dotfiles)
}

/// The lines of a manifest that records `apps`, in their order.
pub open spec fn manifest_lines(apps: Seq<AppModel>) -> Seq<LineModel>
    decreases apps.len(),
{
    if apps.len() == 0 {
        Seq::empty()
    } else {
        manifest_lines(apps.drop_last()) + app_lines(apps.last())
    }
}

/// The manifest text that records `apps`.
pub open spec fn serialize_spec(apps: Seq<AppModel>) -> Seq<char> {
    serialize_lines_spec(manifest_lines(apps))
}

/// The absolute paths named by the path lines, in their order; blank and
/// relative lines name nothing.
pub open spec fn tracked_spec(ls: Seq<LineModel>) -> Seq<Seq<char>>
    decreases ls.len(),
{
    if ls.len() == 0 {
        Seq::empty()
    } else {
        let rest = tracked_spec(ls.drop_last());
        match ls.last() {
            LineModel::PathLine(p) => if is_absolute(p) {
                rest.push(p)
            } else {
                rest
            },
            _ => rest,
        }
    }
}

/// The text of one line, without its newline.
pub fn line_text_exec(l: &ManifestLine) -> (r: String)
    ensures
        r@ == line_text(l@),
{
    match l {
        ManifestLine::Comment(t) => join2("#", t.as_str()),
        ManifestLine::ApplicationHeader(n) => join2("# ", n.as_str()),
        ManifestLine::EntryHeader(n) => join2("## ", n.as_str()),
        ManifestLine::PathLine(p) => p.clone(),
    }
}

/// Writes lines back as text, each followed by a newline.
pub fn serialize_lines(lines: &Vec<ManifestLine>) -> (r: String)
    ensures
        r@ == serialize_lines_spec(lines_view(lines@)),
{
    let ghost texts = lines_view(lines@).map_values(|l: LineModel| line_text(l));
    let mut r = String::new();
    let mut k: usize = 0;
    while k < lines.len()
        invariant
            k <= lines@.len(),
            texts == lines_view(lines@).map_values(|l: LineModel| line_text(l)),
            r@ == lines_text(texts.take(k as int)),
        decreases lines@.len() - k,
    {
        let t = line_text_exec(&lines[k]);
        r.append(t.as_str());
        r.append("\n");
        proof {
            assert(texts.take(k + 1).drop_last() =~= texts.take(k as int));
            assert(texts[k as int] == t@);
        }
        k = k + 1;
    }
    assert(texts.take(k as int) =~= texts);
    r
}

/// The manifest lines that record `apps`: for each application a header,
/// then for each of its dotfiles a header and its location.
pub fn to_lines(apps: &Vec<Application>) -> (r: Vec<ManifestLine>)
    requires
        all_resolved(apps_view(apps@)),
    ensures
        lines_view(r@) == manifest_lines(apps_view(apps@)),
{
    let ghost av = apps_view(apps@);
    let mut out: Vec<ManifestLine> = Vec::new();
    let mut k: usize = 0;
    while k < apps.len()
        invariant
            k <= apps@.len(),
            av == apps_view(apps@),
            all_resolved(av),
            lines_view(out@) == manifest_lines(av.take(k as int)),
        decreases apps@.len() - k,
    {
        let app = &apps[k];
        let ghost start = lines_view(out@);
        out.push(ManifestLine::ApplicationHeader(app.name.clone()));
        let ghost ds = av[k as int].dotfiles;
        assert(lines_view(out@) =~= start + seq![LineModel::ApplicationHeader(av[k as int].name)]);
        let mut j: usize = 0;
        while j < app.dotfiles.len()
            invariant
                k < apps@.len(),
                app == &apps@[k as int],
                av == apps_view(apps@),
                all_resolved(av),
                ds == av[k as int].dotfiles,
                j <= app.dotfiles@.len(),
                lines_view(out@) == start + seq![LineModel::ApplicationHeader(av[k as int].name)]
                    + entry_lines(ds.take(j as int)),
            decreases app.dotfiles@.len() - j,
        {
            let d = &app.dotfiles[j];
            assert(ds[j as int] == d@);
            assert(av[k as int].dotfiles[j as int].actual is Some);
            let p = match &d.actual_path {
                Some(p) => p.clone(),
                None => String::new(),
            };
            let ghost mid = lines_view(out@);
            out.push(ManifestLine::EntryHeader(d.name.clone()));
            out.push(ManifestLine::PathLine(p));
            proof {
                assert(ds.take(j + 1).drop_last() =~= ds.take(j as int));
                assert(lines_view(out@) =~= mid + seq![
                    LineModel::EntryHeader(ds[j as int].name),
                    LineModel::PathLine(ds[j as int].actual.unwrap()),
                ]);
                assert(lines_view(out@) =~= start + seq![LineModel::ApplicationHeader(av[k as int].name)]
                    + entry_lines(ds.take(j + 1)));
            }
            j = j + 1;
        }
        proof {
            assert(ds.take(j as int) =~= ds);
            assert(av.take(k + 1).drop_last() =~= av.take(k as int));
            assert(lines_view(out@) =~= manifest_lines(av.take(k as int)) + app_lines(av[k as int]));
        }
        k = k + 1;
    }
    assert(av.take(k as int) =~= av);
    out
}

/// The manifest text that records `apps`, every dotfile of which must have
/// a location: unresolved entries are dropped beforehand.
pub fn serialize(apps: &Vec<Application>) -> (r: String)
    requires
        all_resolved(apps_view(apps@)),
    ensures
        r@ == serialize_spec(apps_view(apps@)),
{
    let lines = to_lines(apps);
    serialize_lines(&lines)
}

/// The live paths that a manifest's lines ask to track.
pub fn tracked_paths(lines: &Vec<ManifestLine>) -> (r: Vec<String>)
    ensures
        r@.map_values(|s: String| s@) == tracked_spec(lines_view(lines@)),
{
    let ghost lv = lines_view(lines@);
    let mut out: Vec<String> = Vec::new();
    let mut k: usize = 0;
    while k < lines.len()
        invariant
            k <= lines@.len(),
            lv == lines_view(lines@),
            out@.map_values(|s: String| s@) == tracked_spec(lv.take(k as int)),
        decreases lines@.len() - k,
    {
        proof {
            assert(lv.take(k + 1).drop_last() =~= lv.take(k as int));
            assert(lv.take(k + 1).last() == lines@[k as int]@);
        }
        let ghost before = out@;
        match &lines[k] {
            ManifestLine::PathLine(p) => {
                if p.as_str().unicode_len() > 0 && p.as_str().get_char(0) == '/' {
                    out.push(p.clone());
                    assert(out@.map_values(|s: String| s@) =~= before.map_values(|s: String| s@).push(p@));
                }
            },
            _ => {},
        }
        k = k + 1;
    }
    assert(lv.take(k as int) =~= lv);
    out
}

proof fn lemma_lines_text_cons(x: Seq<char>, rest: Seq<Seq<char>>)
    ensures
        lines_text(seq![x] + rest) == x + "\n"@ + lines_text(rest),
    decreases rest.len(),
{
    let s = seq![x] + rest;
    if rest.len() == 0 {
        assert(s.drop_last() =~= Seq::<Seq<char>>::empty());
        assert(s.last() == x);
        assert(lines_text(s) == lines_text(s.drop_last()) + x + "\n"@);
        assert(lines_text(rest) == Seq::<char>::empty());
        assert(lines_text(s) =~= x + "\n"@ + lines_text(rest));
    } else {
        lemma_lines_text_cons(x, rest.drop_last());
        assert(s.drop_last() =~= seq![x] + rest.drop_last());
        assert(s.last() == rest.last());
        assert(lines_text(s) == lines_text(s.drop_last()) + s.last() + "\n"@);
        assert(lines_text(rest) == lines_text(rest.drop_last()) + rest.last() + "\n"@);
        assert(lines_text(s) =~= x + "\n"@ + lines_text(rest));
    }
}

proof fn lemma_split_join(t: Seq<char>, i: int)
    requires
        0 <= i <= t.len(),
        t.len() == 0 || t.last() == '\n',
    ensures
        lines_text(split_from(t, i)) == t.skip(i),
    decreases t.len() - i,
{
    if i == t.len() {
        assert(t.skip(i) =~= Seq::<char>::empty());
    } else {
        lemma_line_end(t, i);
        let e = line_end(t, i);
        if e == t.len() {
            assert(t[t.len() - 1] != '\n');
        }
        assert(e < t.len());
        lemma_split_join(t, e + 1);
        lemma_lines_text_cons(t.subrange(i, e), split_from(t, e + 1));
        reveal_strlit("\n");
        assert(t.skip(i) =~= t.subrange(i, e) + "\n"@ + t.skip(e + 1));
    }
}

/// Text that is empty or ends with a newline reads back to itself: every
/// line keeps its exact text through `parse` and `serialize_lines`.
pub proof fn lemma_serialize_parse(t: Seq<char>)
    requires
        t.len() == 0 || t.last() == '\n',
    ensures
        serialize_lines_spec(parse_spec(t)) == t,
{
    let ls = split_from(t, 0);
    let back = parse_spec(t).map_values(|l: LineModel| line_text(l));
    assert forall|k: int| 0 <= k < ls.len() implies #[trigger] back[k] == ls[k] by {
        lemma_line_text_parse(ls[k]);
    }
    assert(back =~= ls);
    lemma_split_join(t, 0);
    assert(t.skip(0) =~= t);
}

/// A manifest written from applications whose dotfiles all have a location
/// reads back, through `parse` and `serialize_lines`, to the same text.
pub proof fn lemma_manifest_round_trip(apps: Seq<AppModel>)
    requires
        all_resolved(apps),
    ensures
        serialize_lines_spec(parse_spec(serialize_spec(apps))) == serialize_spec(apps),
{
    let t = serialize_spec(apps);
    let ls = manifest_lines(apps).map_values(|l: LineModel| line_text(l));
    if ls.len() > 0 {
        reveal_strlit("\n");
        assert(t.last() == '\n');
    }
    lemma_serialize_parse(t);
}

} // verus!
