//! What is known of a changed path when a tick is planned.

use vstd::prelude::*;

use crate::page::PageId;
use crate::path::{below, parts, parts_of, parts_view, path_starts_with, Part, PathPart};
use crate::plan::{texts, DirtySet};

verus! {

/// What happened to a file.
#[derive(Debug, Clone, Copy, PartialEq, Eq, Structural)]
pub enum ChangeKind {
    Created,
    Modified,
    Removed,
}

/// One change that the watcher reports.
#[derive(Debug)]
pub struct Change {
    pub path: String,
    pub kind: ChangeKind,
}

impl View for Change {
    type V = (Seq<char>, ChangeKind);

    open spec fn view(&self) -> (Seq<char>, ChangeKind) {
        (self.path@, self.kind)
    }
}

/// What a list of changes says.
pub open spec fn changes_view(list: Seq<Change>) -> Seq<(Seq<char>, ChangeKind)> {
    list.map_values(|c: Change| c@)
}

/// What kind of source a path is.
#[derive(Debug, Clone, Copy, PartialEq, Eq, Structural)]
pub enum PathClass {
    /// A file that everything depends on.
    Global,
    /// A page source.
    Page,
    /// A module.
    Module,
    /// A content-collection file.
    Content,
    /// A data file.
    Data,
    /// A stylesheet.
    Style,
    /// A file that is served as it is.
    Asset,
    /// A file in the project that none of the rules names.
    Unclassified,
    /// A file outside the project that none of the rules names.
    External,
}

/// Where a path lies below a directory that the CSS scan reads from outside the
/// project.
#[derive(Debug)]
pub struct CssMirrorMatch {
    /// The directory.
    pub root: String,
    /// The rest of the path.
    pub relative: String,
}

/// Everything that planning reads about one changed path.
#[derive(Debug)]
pub struct PathFacts {
    /// The path.
    pub path: String,
    /// Its class.
    pub class: PathClass,
    /// The pages that the dependency graph reports dirty for it.
    pub dirty: DirtySet,
    /// Whether the dependency graph has any record of it.
    pub known: bool,
    /// Whether it lies below an islands root.
    pub islands_candidate: bool,
    /// Whether the last islands bundle read it.
    pub islands_dependency: bool,
    /// Whether it is a client-script entry.
    pub client_script_candidate: bool,
    /// Whether a client script reads it as raw text.
    pub client_script_raw_target: bool,
    /// Whether a client script's worker reads it.
    pub client_script_worker_target: bool,
    /// Whether a client script reads it from a sibling package.
    pub client_script_sibling_target: bool,
    /// Whether a plugin's virtual module is loaded from it.
    pub plugin_watch_target: bool,
    /// The CSS mirror directory that it lies below.
    pub css_mirror: Option<CssMirrorMatch>,
    /// The pages to which the external-invalidation hook narrows the change;
    /// `None` where there is no hook or the hook cannot tell.
    pub hook_verdict: Option<Vec<PageId>>,
}

/// The paths of a list of facts.
pub open spec fn fact_paths(list: Seq<PathFacts>) -> Seq<Seq<char>> {
    list.map_values(|f: PathFacts| f.path@)
}

/// The project as planning sees it: its root, the names under which the root is
/// known, and the directory names that the CSS scan skips.
pub struct Project {
    pub root: Seq<char>,
    pub aliases: Seq<Seq<char>>,
    pub skip_names: Seq<Seq<char>>,
}

/// The path lies outside the project root.
pub open spec fn out_of_root(project: Project, path: Seq<char>) -> bool {
    !below(path, project.root)
}

/// Some directory on the way down `relative` has a name that the scan skips.
pub open spec fn passes_skipped(skip_names: Seq<Seq<char>>, relative: Seq<char>) -> bool {
    exists|i: int|
        0 <= i < parts(relative).len() && match #[trigger] parts(relative)[i] {
            Part::Normal(name) => skip_names.contains(name),
            _ => false,
        }
}

/// The mirror directory contains the project under one of its names.
pub open spec fn swallows_project(aliases: Seq<Seq<char>>, root: Seq<char>) -> bool {
    exists|i: int| 0 <= i < aliases.len() && below(#[trigger] aliases[i], root)
}

/// The CSS scan reads the path from a mirror directory.
pub open spec fn under_css_mirror(project: Project, f: PathFacts) -> bool {
    match f.css_mirror {
        Some(m) => !swallows_project(project.aliases, m.root@) && !passes_skipped(
            project.skip_names,
            m.relative@,
        ),
        None => false,
    }
}

/// The path is one that a live edit hands to the CSS scan only because it lies
/// in a mirror directory.
pub open spec fn content_under_css_mirror(project: Project, f: PathFacts) -> bool {
    (f.class == PathClass::Content || f.class == PathClass::Data || f.class == PathClass::External)
        && under_css_mirror(project, f)
}

/// Some client script reads the path, or it is one.
pub open spec fn feeds_client_scripts(f: PathFacts) -> bool {
    ||| f.client_script_candidate
    ||| f.client_script_raw_target
    ||| f.client_script_worker_target
    ||| f.client_script_sibling_target
}

impl PathFacts {
    /// Whether some client script reads the path, or it is one.
    pub fn feeds_client_scripts(&self) -> (r: bool)
        ensures
            r == feeds_client_scripts(*self),
    {
        self.client_script_candidate || self.client_script_raw_target
            || self.client_script_worker_target || self.client_script_sibling_target
    }
}

fn list_contains(list: &Vec<String>, name: &String) -> (r: bool)
    ensures
        r == texts(list@).contains(name@),
{
    let mut i: usize = 0;
    while i < list.len()
        invariant
            i <= list@.len(),
            forall|k: int| 0 <= k < i ==> (#[trigger] list@[k])@ != name@,
        decreases list@.len() - i,
    {
        if list[i] == *name {
            assert(texts(list@)[i as int] == name@);
            return true;
        }
        i = i + 1;
    }
    proof {
        if texts(list@).contains(name@) {
            let k = choose|k: int| 0 <= k < texts(list@).len() && texts(list@)[k] == name@;
            assert(list@[k]@ == name@);
        }
    }
    false
}

/// Whether some directory on the way down `relative` has a name in
/// `skip_names`.
pub fn has_skipped_component(relative: &str, skip_names: &Vec<String>) -> (r: bool)
    ensures
        r == passes_skipped(texts(skip_names@), relative@),
{
    let list = parts_of(relative);
    let ghost all = parts(relative@);
    assert(all == parts_view(list@));
    let mut i: usize = 0;
    while i < list.len()
        invariant
            i <= list@.len(),
            all == parts_view(list@),
            all == parts(relative@),
            forall|k: int|
                0 <= k < i ==> match #[trigger] all[k] {
                    Part::Normal(name) => !texts(skip_names@).contains(name),
                    _ => true,
                },
        decreases list@.len() - i,
    {
        assert(all[i as int] == list@[i as int]@);
        if let PathPart::Normal(name) = &list[i] {
            if list_contains(skip_names, name) {
                return true;
            }
        }
        i = i + 1;
    }
    assert(all.len() == list@.len());
    false
}

/// Whether the directory `root` contains the project under one of the names in
/// `aliases`.
pub fn root_swallows_project(root: &str, aliases: &Vec<String>) -> (r: bool)
    ensures
        r == swallows_project(texts(aliases@), root@),
{
    let mut i: usize = 0;
    while i < aliases.len()
        invariant
            i <= aliases@.len(),
            forall|k: int| 0 <= k < i ==> !below(#[trigger] texts(aliases@)[k], root@),
        decreases aliases@.len() - i,
    {
        assert(texts(aliases@)[i as int] == aliases@[i as int]@);
        if path_starts_with(aliases[i].as_str(), root) {
            return true;
        }
        i = i + 1;
    }
    assert(texts(aliases@).len() == aliases@.len());
    false
}

} // verus!
