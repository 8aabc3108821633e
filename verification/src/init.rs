//! Project detection for `init`: which kinds of project a directory holds and
//! which directories to exclude from scanning.
use vstd::prelude::*;

use crate::relate::dedup;
use crate::text::{chars_eq, chars_of};

verus! {

/// A detected kind of project and the directories it suggests excluding.
#[derive(Debug, Clone)]
pub struct ProjectHint {
    pub name: &'static str,
    pub exclude_dirs: Vec<&'static str>,
}

/// Which project marker files a directory holds.
#[derive(Debug, Clone, Copy)]
pub struct ProjectMarkers {
    pub cargo_toml: bool,
    pub package_json: bool,
    pub go_mod: bool,
    pub pyproject_toml: bool,
    pub requirements_txt: bool,
}

/// Model of a hint: its name and its directories.
pub open spec fn hint_view(h: ProjectHint) -> (Seq<char>, Seq<Seq<char>>) {
    (h.name@, h.exclude_dirs@.map_values(|d: &'static str| d@))
}

pub open spec fn rust_hint() -> (Seq<char>, Seq<Seq<char>>) {
    ("Rust"@, seq!["target"@])
}

pub open spec fn js_hint() -> (Seq<char>, Seq<Seq<char>>) {
    ("JavaScript/TypeScript"@, seq!["node_modules"@, "dist"@, ".next"@])
}

pub open spec fn go_hint() -> (Seq<char>, Seq<Seq<char>>) {
    ("Go"@, seq!["vendor"@])
}

pub open spec fn python_hint() -> (Seq<char>, Seq<Seq<char>>) {
    ("Python"@, seq![".venv"@, "__pycache__"@, ".tox"@])
}

/// Hints for the markers present, in the order Rust, JavaScript/TypeScript,
/// Go, Python (Python for either `pyproject.toml` or `requirements.txt`).
pub open spec fn hints_for(m: ProjectMarkers) -> Seq<(Seq<char>, Seq<Seq<char>>)> {
    (if m.cargo_toml {
        seq![rust_hint()]
    } else {
        seq![]
    }) + (if m.package_json {
        seq![js_hint()]
    } else {
        seq![]
    }) + (if m.go_mod {
        seq![go_hint()]
    } else {
        seq![]
    }) + (if m.pyproject_toml || m.requirements_txt {
        seq![python_hint()]
    } else {
        seq![]
    })
}

fn push_hint(hints: &mut Vec<ProjectHint>, h: ProjectHint)
    ensures
        final(hints)@.map_values(|x: ProjectHint| hint_view(x)) == old(hints)@.map_values(
            |x: ProjectHint| hint_view(x),
        ).push(hint_view(h)),
{
    hints.push(h);
    assert(hints@.map_values(|x: ProjectHint| hint_view(x)) =~= old(hints)@.map_values(
        |x: ProjectHint| hint_view(x),
    ).push(hint_view(h)));
}

/// The project hints for the marker files a directory holds.
pub fn project_hints(m: ProjectMarkers) -> (res: Vec<ProjectHint>)
    ensures
        res@.map_values(|x: ProjectHint| hint_view(x)) == hints_for(m),
{
    let mut hints: Vec<ProjectHint> = Vec::new();
    if m.cargo_toml {
        let h = ProjectHint { name: "Rust", exclude_dirs: vec!["target"] };
        assert(hint_view(h) =~= rust_hint());
        push_hint(&mut hints, h);
    }
    let ghost a = hints@.map_values(|x: ProjectHint| hint_view(x));
    if m.package_json {
        let h = ProjectHint { name: "JavaScript/TypeScript", exclude_dirs: vec!["node_modules", "dist", ".next"] };
        assert(hint_view(h) =~= js_hint());
        push_hint(&mut hints, h);
    }
    let ghost b = hints@.map_values(|x: ProjectHint| hint_view(x));
    if m.go_mod {
        let h = ProjectHint { name: "Go", exclude_dirs: vec!["vendor"] };
        assert(hint_view(h) =~= go_hint());
        push_hint(&mut hints, h);
    }
    let ghost c = hints@.map_values(|x: ProjectHint| hint_view(x));
    if m.pyproject_toml || m.requirements_txt {
        let h = ProjectHint { name: "Python", exclude_dirs: vec![".venv", "__pycache__", ".tox"] };
        assert(hint_view(h) =~= python_hint());
        push_hint(&mut hints, h);
    }
    assert(hints@.map_values(|x: ProjectHint| hint_view(x)) =~= hints_for(m));
    hints
}

/// All suggested directories of the hints, in order.
pub open spec fn hint_dirs(hints: Seq<(Seq<char>, Seq<Seq<char>>)>) -> Seq<Seq<char>>
    decreases hints.len(),
{
    if hints.len() == 0 {
        seq![]
    } else {
        hint_dirs(hints.drop_last()) + hints.last().1
    }
}

fn contains_dir(dirs: &Vec<&'static str>, d: &str) -> (res: bool)
    ensures
        res == dirs@.map_values(|x: &'static str| x@).contains(d@),
{
    let ghost ds = dirs@.map_values(|x: &'static str| x@);
    let dc = chars_of(d);
    let mut k: usize = 0;
    while k < dirs.len()
        invariant
            ds == dirs@.map_values(|x: &'static str| x@),
            dc@ == d@,
            k <= dirs@.len(),
            forall|j: int| 0 <= j < k ==> ds[j] != d@,
        decreases dirs@.len() - k,
    {
        if chars_eq(&chars_of(dirs[k]), &dc) {
            assert(ds[k as int] == d@);
            return true;
        }
        k += 1;
    }
    false
}

/// The directories suggested by the hints, each once, in order of first mention.
pub fn collect_suggested_dirs(hints: &[ProjectHint]) -> (res: Vec<&'static str>)
    ensures
        res@.map_values(|x: &'static str| x@) == dedup(hint_dirs(hints@.map_values(|x: ProjectHint| hint_view(x)))),
{
    let ghost hv = hints@.map_values(|x: ProjectHint| hint_view(x));
    let mut dirs: Vec<&'static str> = Vec::new();
    let mut i: usize = 0;
    assert(hv.take(0) =~= Seq::<(Seq<char>, Seq<Seq<char>>)>::empty());
    while i < hints.len()
        invariant
            hv == hints@.map_values(|x: ProjectHint| hint_view(x)),
            i <= hints@.len(),
            dirs@.map_values(|x: &'static str| x@) == dedup(hint_dirs(hv.take(i as int))),
        decreases hints@.len() - i,
    {
        assert(hv.take(i + 1).drop_last() =~= hv.take(i as int));
        assert(hv.take(i + 1).last() == hint_view(hints@[i as int]));
        let h = &hints[i];
        let ghost before = hint_dirs(hv.take(i as int));
        let ghost hd = hint_view(hints@[i as int]).1;
        let mut k: usize = 0;
        assert(before + hd.take(0) =~= before);
        while k < h.exclude_dirs.len()
            invariant
                hd == h.exclude_dirs@.map_values(|x: &'static str| x@),
                k <= h.exclude_dirs@.len(),
                dirs@.map_values(|x: &'static str| x@) == dedup(before + hd.take(k as int)),
            decreases h.exclude_dirs@.len() - k,
        {
            let d: &'static str = h.exclude_dirs[k];
            assert((before + hd.take(k + 1)).drop_last() =~= before + hd.take(k as int));
            assert((before + hd.take(k + 1)).last() == d@);
            if !contains_dir(&dirs, d) {
                let ghost old_d = dirs@;
                dirs.push(d);
                assert(dirs@.map_values(|x: &'static str| x@) =~= old_d.map_values(|x: &'static str| x@).push(d@));
            }
            k += 1;
        }
        assert(hd.take(h.exclude_dirs@.len() as int) =~= hd);
        assert(hint_dirs(hv.take(i + 1)) =~= before + hd);
        i += 1;
    }
    assert(hv.take(hints@.len() as int) =~= hv);
    dirs
}

} // verus!
