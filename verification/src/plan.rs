//! What a burst of file changes asks the asset pipeline to do.

use vstd::prelude::*;

use crate::page::{ascending, list_with_all, page_key_set, page_keys, PageId, PageSet};
use crate::path::Part;

verus! {

/// The texts of a list of strings.
pub open spec fn texts(list: Seq<String>) -> Seq<Seq<char>> {
    list.map_values(|s: String| s@)
}

/// The text of an optional string.
pub open spec fn opt_text(s: Option<String>) -> Option<Seq<char>> {
    match s {
        Some(s) => Some(s@),
        None => None,
    }
}

/// The same strings in the same order.
pub fn copy_texts(list: &Vec<String>) -> (r: Vec<String>)
    ensures
        r@ == list@,
{
    let mut out: Vec<String> = Vec::new();
    let mut i: usize = 0;
    while i < list.len()
        invariant
            i <= list@.len(),
            out@ == list@.take(i as int),
        decreases list@.len() - i,
    {
        out.push(list[i].clone());
        i = i + 1;
        assert(out@ =~= list@.take(i as int));
    }
    assert(out@ =~= list@);
    out
}

/// Appends the strings of `more` to `list`.
pub fn append_texts(list: &mut Vec<String>, more: &Vec<String>)
    ensures
        final(list)@ == old(list)@ + more@,
{
    let mut i: usize = 0;
    let ghost start = list@;
    assert(start + more@.take(0) =~= start);
    while i < more.len()
        invariant
            i <= more@.len(),
            list@ == start + more@.take(i as int),
        decreases more@.len() - i,
    {
        list.push(more[i].clone());
        i = i + 1;
        assert(list@ =~= start + more@.take(i as int));
    }
    assert(more@.take(more@.len() as int) =~= more@);
}

/// The content files that were edited in a tick, for a renderer that wants to
/// render only what they back. A hint: it never decides whether a plan does
/// anything.
#[derive(Debug)]
pub struct ContentNarrowing {
    /// The edited content files, as the watcher named them.
    pub changed_content: Vec<String>,
    /// Whether the whole tick was in-place edits of content files, so that
    /// rendering only what they back leaves nothing out.
    pub fan_out_safe: bool,
}

/// What a [`ContentNarrowing`] says.
#[verifier::ext_equal]
pub struct Narrowing {
    pub changed_content: Seq<Seq<char>>,
    pub fan_out_safe: bool,
}

impl View for ContentNarrowing {
    type V = Narrowing;

    open spec fn view(&self) -> Narrowing {
        Narrowing {
            changed_content: texts(self.changed_content@),
            fan_out_safe: self.fan_out_safe,
        }
    }
}

impl ContentNarrowing {
    /// An equal hint.
    pub fn copy(&self) -> (r: ContentNarrowing)
        ensures
            r@ == self@,
    {
        let changed_content = copy_texts(&self.changed_content);
        ContentNarrowing { changed_content, fan_out_safe: self.fan_out_safe }
    }
}

/// The pages that the dependency graph reports dirty for a path.
#[derive(Debug)]
pub enum DirtySet {
    /// Every page.
    All,
    /// Exactly these.
    Specific(PageSet),
}

/// Which pages to render in a tick.
#[derive(Debug)]
pub enum PageSelection {
    /// Every page.
    All,
    /// Exactly these; none, where only assets changed.
    Specific(PageSet),
}

/// The pages that a [`PageSelection`] selects.
#[verifier::ext_equal]
pub enum Selection {
    All,
    Specific(Set<Seq<Part>>),
}

impl View for PageSelection {
    type V = Selection;

    open spec fn view(&self) -> Selection {
        match self {
            PageSelection::All => Selection::All,
            PageSelection::Specific(set) => Selection::Specific(set@),
        }
    }
}

impl View for DirtySet {
    type V = Selection;

    open spec fn view(&self) -> Selection {
        match self {
            DirtySet::All => Selection::All,
            DirtySet::Specific(set) => Selection::Specific(set@),
        }
    }
}

impl Selection {
    /// No pages.
    pub open spec fn none() -> Selection {
        Selection::Specific(Set::empty())
    }

    /// Everything that one of the two selects.
    pub open spec fn merged(self, other: Selection) -> Selection {
        match (self, other) {
            (Selection::Specific(a), Selection::Specific(b)) => Selection::Specific(a.union(b)),
            _ => Selection::All,
        }
    }

    /// The page with this key is selected.
    pub open spec fn selects(self, key: Seq<Part>) -> bool {
        match self {
            Selection::All => true,
            Selection::Specific(set) => set.contains(key),
        }
    }
}

/// Merging selections: the order does not matter, repeating does not matter,
/// selecting nothing changes nothing, and selecting everything absorbs the rest.
pub proof fn lemma_merge(a: Selection, b: Selection, c: Selection)
    ensures
        a.merged(b) == b.merged(a),
        a.merged(b).merged(c) == a.merged(b.merged(c)),
        a.merged(a) == a,
        a.merged(Selection::none()) == a,
        a.merged(Selection::All) == Selection::All,
        forall|k: Seq<Part>| #[trigger]
            a.merged(b).selects(k) <==> a.selects(k) || b.selects(k),
{
    assert(a.merged(b) =~= b.merged(a));
    assert(a.merged(b).merged(c) =~= a.merged(b.merged(c)));
    assert(a.merged(a) =~= a);
    assert(a.merged(Selection::none()) =~= a);
}

impl PageSelection {
    /// The pages that are named, in the order of their paths and as they are
    /// spelled. `All` names none.
    pub open spec fn listed(&self) -> Seq<PageId> {
        match self {
            PageSelection::All => Seq::empty(),
            PageSelection::Specific(set) => set.listed(),
        }
    }

    /// The pages that are named, in the order of their paths.
    pub fn to_list(&self) -> (r: Vec<PageId>)
        ensures
            r@ == self.listed(),
            match self@ {
                Selection::All => r@.len() == 0,
                Selection::Specific(set) => page_key_set(r@) == set && ascending(page_keys(r@)),
            },
    {
        match self {
            PageSelection::All => Vec::new(),
            PageSelection::Specific(set) => set.to_vec(),
        }
    }

    /// No pages.
    pub fn none() -> (r: PageSelection)
        ensures
            r@ == Selection::none(),
    {
        PageSelection::Specific(PageSet::new())
    }

    /// Whether every page is selected by the `All` marker.
    pub fn is_all(&self) -> (r: bool)
        ensures
            r == (self@ == Selection::All),
    {
        matches!(self, PageSelection::All)
    }

    /// Whether no page is selected; never so for `All`.
    pub fn is_empty(&self) -> (r: bool)
        ensures
            r == (self@ == Selection::none()),
    {
        match self {
            PageSelection::All => false,
            PageSelection::Specific(set) => set.is_empty(),
        }
    }

    /// Adds what `other` selects. A page that both name keeps the spelling that
    /// it has.
    pub fn merge(&mut self, other: PageSelection)
        ensures
            final(self)@ == old(self)@.merged(other@),
            final(self).listed() == if final(self)@ == Selection::All {
                Seq::empty()
            } else {
                list_with_all(old(self).listed(), other.listed())
            },
    {
        match other {
            PageSelection::All => {
                *self = PageSelection::All;
            },
            PageSelection::Specific(more) => {
                if let PageSelection::Specific(set) = self {
                    set.extend(more);
                }
            },
        }
    }

    /// An equal selection.
    pub fn copy(&self) -> (r: PageSelection)
        ensures
            r@ == self@,
            r.listed() == self.listed(),
    {
        match self {
            PageSelection::All => PageSelection::All,
            PageSelection::Specific(set) => PageSelection::Specific(set.copy()),
        }
    }
}

impl From<DirtySet> for PageSelection {
    fn from(dirty: DirtySet) -> (r: PageSelection) {
        match dirty {
            DirtySet::All => PageSelection::All,
            DirtySet::Specific(set) => PageSelection::Specific(set),
        }
    }
}

impl vstd::std_specs::convert::FromSpecImpl<DirtySet> for PageSelection {
    open spec fn obeys_from_spec() -> bool {
        true
    }

    open spec fn from_spec(dirty: DirtySet) -> PageSelection {
        match dirty {
            DirtySet::All => PageSelection::All,
            DirtySet::Specific(set) => PageSelection::Specific(set),
        }
    }
}

impl DirtySet {
    /// The pages of the set as a selection.
    pub fn selection(&self) -> (r: PageSelection)
        ensures
            r@ == self@,
    {
        match self {
            DirtySet::All => PageSelection::from(DirtySet::All),
            DirtySet::Specific(set) => PageSelection::from(DirtySet::Specific(set.copy())),
        }
    }
}

/// What the asset pipeline has to do in a tick.
#[derive(Debug)]
pub struct RebuildPlan {
    /// The pages to render.
    pub pages: PageSelection,
    /// Whether the CSS pipeline runs again.
    pub rerun_css: bool,
    /// Whether the islands bundler runs again.
    pub rerun_islands: bool,
    /// Whether the client-scripts bundler runs again.
    pub rerun_client_scripts: bool,
    /// Whether the renderer's bundle is already fresh, so that nothing reloads
    /// it a second time.
    pub renderer_fresh: bool,
    /// Whether the change may show in server-rendered output, so that the
    /// renderer is reloaded even where no page is selected.
    pub ssr_reload_needed: bool,
    /// Absolute output paths to delete.
    pub prune_paths: Vec<String>,
    /// The paths that led to this plan. For diagnostics.
    pub triggers: Vec<String>,
    /// The content files that were edited. A hint.
    pub content_narrowing: Option<ContentNarrowing>,
}

/// What a [`RebuildPlan`] says.
#[verifier::ext_equal]
pub struct Plan {
    pub pages: Selection,
    pub rerun_css: bool,
    pub rerun_islands: bool,
    pub rerun_client_scripts: bool,
    pub renderer_fresh: bool,
    pub ssr_reload_needed: bool,
    pub prune_paths: Seq<Seq<char>>,
    pub triggers: Seq<Seq<char>>,
    pub content_narrowing: Option<Narrowing>,
}

impl View for RebuildPlan {
    type V = Plan;

    open spec fn view(&self) -> Plan {
        Plan {
            pages: self.pages@,
            rerun_css: self.rerun_css,
            rerun_islands: self.rerun_islands,
            rerun_client_scripts: self.rerun_client_scripts,
            renderer_fresh: self.renderer_fresh,
            ssr_reload_needed: self.ssr_reload_needed,
            prune_paths: texts(self.prune_paths@),
            triggers: texts(self.triggers@),
            content_narrowing: match self.content_narrowing {
                Some(n) => Some(n@),
                None => None,
            },
        }
    }
}

impl Plan {
    /// Nothing to do.
    pub open spec fn empty() -> Plan {
        Plan {
            pages: Selection::none(),
            rerun_css: false,
            rerun_islands: false,
            rerun_client_scripts: false,
            renderer_fresh: false,
            ssr_reload_needed: false,
            prune_paths: Seq::empty(),
            triggers: Seq::empty(),
            content_narrowing: None,
        }
    }

    /// Every page and every sub-pipeline.
    pub open spec fn full() -> Plan {
        Plan {
            pages: Selection::All,
            rerun_css: true,
            rerun_islands: true,
            rerun_client_scripts: true,
            ssr_reload_needed: true,
            ..Plan::empty()
        }
    }

    /// The plan asks for nothing. Triggers, the narrowing hint and a fresh
    /// renderer ask for nothing.
    pub open spec fn noop(self) -> bool {
        &&& self.pages == Selection::none()
        &&& !self.rerun_css
        &&& !self.rerun_islands
        &&& !self.rerun_client_scripts
        &&& !self.ssr_reload_needed
        &&& self.prune_paths.len() == 0
    }
}

/// The narrowing hint, the triggers and a fresh renderer never decide whether a
/// plan does anything.
pub proof fn lemma_hints_do_not_decide(
    plan: Plan,
    hint: Option<Narrowing>,
    triggers: Seq<Seq<char>>,
    fresh: bool,
)
    ensures
        plan.noop() == (Plan {
            content_narrowing: hint,
            triggers: triggers,
            renderer_fresh: fresh,
            ..plan
        }).noop(),
{
}

impl RebuildPlan {
    /// A plan with nothing to do.
    pub fn empty() -> (r: RebuildPlan)
        ensures
            r@ == Plan::empty(),
    {
        let r = RebuildPlan {
            pages: PageSelection::none(),
            rerun_css: false,
            rerun_islands: false,
            rerun_client_scripts: false,
            renderer_fresh: false,
            ssr_reload_needed: false,
            prune_paths: Vec::new(),
            triggers: Vec::new(),
            content_narrowing: None,
        };
        assert(r@ =~= Plan::empty());
        r
    }

    /// A plan that does everything.
    pub fn full_rebuild() -> (r: RebuildPlan)
        ensures
            r@ == Plan::full(),
    {
        let r = RebuildPlan {
            pages: PageSelection::All,
            rerun_css: true,
            rerun_islands: true,
            rerun_client_scripts: true,
            renderer_fresh: false,
            ssr_reload_needed: true,
            prune_paths: Vec::new(),
            triggers: Vec::new(),
            content_narrowing: None,
        };
        assert(r@ =~= Plan::full());
        r
    }

    /// Adds output paths to delete.
    pub fn add_prune_paths(&mut self, paths: &Vec<String>)
        ensures
            final(self)@ == (Plan {
                prune_paths: old(self)@.prune_paths + texts(paths@),
                ..old(self)@
            }),
    {
        append_texts(&mut self.prune_paths, paths);
        assert(texts(self.prune_paths@) =~= old(self)@.prune_paths + texts(paths@));
    }

    /// Notes that the renderer's bundle is already fresh.
    pub fn mark_renderer_fresh(&mut self)
        ensures
            final(self)@ == (Plan { renderer_fresh: true, ..old(self)@ }),
    {
        self.renderer_fresh = true;
    }

    /// Notes that server-rendered output may have changed.
    pub fn mark_ssr_reload_needed(&mut self)
        ensures
            final(self)@ == (Plan { ssr_reload_needed: true, ..old(self)@ }),
    {
        self.ssr_reload_needed = true;
    }

    /// Adds a path to the triggers.
    pub fn record_trigger(&mut self, path: String)
        ensures
            final(self)@ == (Plan { triggers: old(self)@.triggers.push(path@), ..old(self)@ }),
    {
        self.triggers.push(path);
        assert(texts(self.triggers@) =~= old(self)@.triggers.push(path@));
    }

    /// Adds pages to render.
    pub fn mark_pages(&mut self, pages: PageSelection)
        ensures
            final(self)@ == (Plan { pages: old(self)@.pages.merged(pages@), ..old(self)@ }),
    {
        self.pages.merge(pages);
    }

    /// Asks for the CSS pipeline.
    pub fn mark_css(&mut self)
        ensures
            final(self)@ == (Plan { rerun_css: true, ..old(self)@ }),
    {
        self.rerun_css = true;
    }

    /// Asks for the islands bundler.
    pub fn mark_islands(&mut self)
        ensures
            final(self)@ == (Plan { rerun_islands: true, ..old(self)@ }),
    {
        self.rerun_islands = true;
    }

    /// Asks for the client-scripts bundler.
    pub fn mark_client_scripts(&mut self)
        ensures
            final(self)@ == (Plan { rerun_client_scripts: true, ..old(self)@ }),
    {
        self.rerun_client_scripts = true;
    }

    /// Whether the plan asks for nothing.
    pub fn is_noop(&self) -> (r: bool)
        ensures
            r == self@.noop(),
    {
        assert(self@.prune_paths.len() == self.prune_paths@.len());
        !self.rerun_css && !self.rerun_islands && !self.rerun_client_scripts
            && !self.ssr_reload_needed && self.pages.is_empty() && self.prune_paths.is_empty()
    }
}

/// The pages that `pages` lists, as a selection.
pub fn select_pages(pages: &Vec<PageId>) -> (r: PageSelection)
    ensures
        r@ == Selection::Specific(page_key_set(pages@)),
        r.listed() == list_with_all(Seq::empty(), pages@),
{
    PageSelection::Specific(PageSet::from_list(pages))
}

} // verus!
