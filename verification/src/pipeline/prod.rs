//! The production pipeline: one build as a machine that says what is to be done
//! next and is told what came of it.
//!
//! The order of a build: pages are rendered, assets are emitted and shipped
//! under hashed names, one after the other, and then the pages are written with
//! the hashed URLs in them.

use vstd::prelude::*;

use crate::page::{ascending, copy_pages, page_key_set, page_keys, PageId};
use crate::path::{join_path, parent};
use crate::pipeline::asset::{
    asset_url, flat_name, insert_hash_before_extension, is_flat_name, Asset, CompanionFile,
    EmittedAsset,
};
use crate::pipeline::dev::{bytes_of, copy_bytes, to_bytes};
use crate::pipeline::hash::{hexadecimal, sha256_8, sha256_digest, short_hash};
use crate::pipeline::rewrite::{
    by_length, rewrite_all, rewrites_view, rewritten, sort_rewrites, Rewrite,
};
use crate::pipeline::{AssetKind, BuildOutcome, Outcome, RenderedPage};
use crate::plan::{opt_text, Plan, RebuildPlan, Selection};

verus! {

/// Something that produces an asset.
pub trait AssetEmitter {
    /// What it reports as an error.
    type Error;

    /// Produces the asset, if there is one.
    fn emit(&self) -> Result<Option<EmittedAsset>, Self::Error>;
}

/// What produces the assets of a build.
#[derive(Debug)]
pub struct ProductionEmitters<T> {
    /// The stylesheet.
    pub css: Option<T>,
    /// The islands bundle.
    pub islands: Option<T>,
    /// The client scripts.
    pub client_scripts: Vec<T>,
}

impl<T> Default for ProductionEmitters<T> {
    fn default() -> (r: ProductionEmitters<T>)
        ensures
            r.css is None,
            r.islands is None,
            r.client_scripts@.len() == 0,
    {
        ProductionEmitters { css: None, islands: None, client_scripts: Vec::new() }
    }
}

/// The one-shot pipeline.
#[derive(Debug)]
pub struct ProductionAssetPipeline<T> {
    emitters: ProductionEmitters<T>,
}

/// Which asset of a build.
#[derive(Debug, Clone, Copy, PartialEq, Eq, Structural)]
pub enum Slot {
    /// The stylesheet.
    Css,
    /// The islands bundle.
    Islands,
    /// The client script with this index.
    Script(usize),
}

/// The kind of the asset.
pub open spec fn kind_of(slot: Slot) -> AssetKind {
    match slot {
        Slot::Css => AssetKind::Css,
        Slot::Islands => AssetKind::Islands,
        Slot::Script(_) => AssetKind::ClientScript,
    }
}

/// What a build waits for, for specifications.
pub enum BuildWait {
    Render,
    Emit(Slot),
    /// The write of a file of the asset: the asset itself, or the companion one
    /// below `next`.
    Ship { slot: Slot, asset: Asset, hash: Seq<char>, next: nat },
    /// The write of the first page of the queue.
    Page,
    /// Nothing: the build is over.
    Finished,
}

/// What a build is to do, and with what.
pub struct BuildSetup {
    pub pages: Seq<PageId>,
    pub rerun_css: bool,
    pub rerun_islands: bool,
    pub rerun_client_scripts: bool,
    /// Whether there is something to produce a stylesheet.
    pub has_css: bool,
    /// Whether there is something to produce an islands bundle.
    pub has_islands: bool,
    /// How many client scripts there are.
    pub scripts: nat,
}

/// Where a build stands.
pub struct Build {
    pub setup: BuildSetup,
    pub wait: BuildWait,
    pub outcome: Outcome,
    /// The URLs that are to be replaced in the pages.
    pub rewrites: Seq<(Seq<char>, Seq<char>)>,
    /// The rendered pages that are still to be written.
    pub queue: Seq<RenderedPage>,
}

impl Build {
    pub open spec fn at(self, wait: BuildWait) -> Build {
        Build { wait, ..self }
    }

    #[verifier::opaque]
    pub open spec fn begin(self) -> Build {
        if self.setup.pages.len() > 0 {
            self.at(BuildWait::Render)
        } else {
            self.to_css()
        }
    }

    #[verifier::opaque]
    pub open spec fn to_css(self) -> Build {
        if self.setup.rerun_css && self.setup.has_css {
            self.at(BuildWait::Emit(Slot::Css))
        } else {
            self.to_islands()
        }
    }

    #[verifier::opaque]
    pub open spec fn to_islands(self) -> Build {
        if self.setup.rerun_islands && self.setup.has_islands {
            self.at(BuildWait::Emit(Slot::Islands))
        } else {
            self.to_script(0)
        }
    }

    #[verifier::opaque]
    pub open spec fn to_script(self, k: int) -> Build {
        if self.setup.rerun_client_scripts && k < self.setup.scripts {
            self.at(BuildWait::Emit(Slot::Script(k as usize)))
        } else {
            self.to_pages()
        }
    }

    /// Longer URLs are replaced before shorter ones.
    #[verifier::opaque]
    pub open spec fn to_pages(self) -> Build {
        Build { rewrites: by_length(self.rewrites), ..self }.to_page()
    }

    #[verifier::opaque]
    pub open spec fn to_page(self) -> Build {
        if self.queue.len() > 0 {
            self.at(BuildWait::Page)
        } else {
            self.at(BuildWait::Finished)
        }
    }

    /// The asset is done with.
    #[verifier::opaque]
    pub open spec fn after_slot(self, slot: Slot) -> Build {
        match slot {
            Slot::Css => self.to_islands(),
            Slot::Islands => self.to_script(0),
            Slot::Script(k) => self.to_script(k + 1),
        }
    }

    #[verifier::opaque]
    pub open spec fn after_rendered(self, rendered: Seq<RenderedPage>) -> Build {
        Build {
            outcome: Outcome { pages_rendered: rendered.len(), ..self.outcome },
            queue: rendered,
            ..self
        }.to_css()
    }

    /// The asset is to be shipped under this hash.
    pub open spec fn after_emitted(self, asset: Asset, hash: Seq<char>) -> Build {
        self.at(BuildWait::Ship { slot: self.wait->Emit_0, asset, hash, next: 0 })
    }

    /// There is a new stylesheet or a new islands bundle. A client script is
    /// reported by its URL alone.
    pub open spec fn changed(self, slot: Slot) -> Build {
        let outcome = match slot {
            Slot::Css => Outcome { css_changed: true, ..self.outcome },
            Slot::Islands => Outcome { islands_changed: true, ..self.outcome },
            Slot::Script(_) => self.outcome,
        };
        Build { outcome, ..self }
    }

    /// All files of the asset are written.
    #[verifier::opaque]
    pub open spec fn shipped(self, slot: Slot, asset: Asset, hash: Seq<char>) -> Build {
        let url = asset.url(hash);
        Build {
            outcome: Outcome {
                hashed_asset_urls: self.outcome.hashed_asset_urls.push((kind_of(slot), url)),
                ..self.outcome
            },
            rewrites: match asset.stable_url {
                Some(stable) => self.rewrites.push((stable, url)),
                None => self.rewrites,
            },
            ..self
        }.changed(slot).after_slot(slot)
    }

    /// Where an asset is shipped, its hash is made of eight hexadecimal digits.
    pub open spec fn short_hashed(self) -> bool {
        self.wait matches BuildWait::Ship { hash, .. } ==> hexadecimal(hash) && hash.len() == 8
    }

    /// The companion that comes next may not have its name.
    pub open spec fn companion_refused(self) -> bool {
        match self.wait {
            BuildWait::Ship { slot, asset, hash, next } => next < asset.companions.len()
                && !flat_name(asset.companions[next as int].0),
            _ => false,
        }
    }

    /// A file or a page has been written.
    #[verifier::opaque]
    pub open spec fn after_written(self) -> Build {
        match self.wait {
            BuildWait::Ship { slot, asset, hash, next } => if next < asset.companions.len() {
                if flat_name(asset.companions[next as int].0) {
                    self.at(BuildWait::Ship { slot, asset, hash, next: next + 1 })
                } else {
                    self.at(BuildWait::Finished)
                }
            } else {
                self.shipped(slot, asset, hash)
            },
            _ => Build {
                outcome: Outcome {
                    pages_written: self.outcome.pages_written.push(self.queue[0].page),
                    ..self.outcome
                },
                queue: self.queue.drop_first(),
                ..self
            }.to_page(),
        }
    }
}

/// Where a build stands before anything is done.
pub open spec fn build_opened<T>(
    plan: Plan,
    pages: Seq<PageId>,
    emitters: ProductionEmitters<T>,
) -> Build {
    Build {
        setup: BuildSetup {
            pages,
            rerun_css: plan.rerun_css,
            rerun_islands: plan.rerun_islands,
            rerun_client_scripts: plan.rerun_client_scripts,
            has_css: emitters.css is Some,
            has_islands: emitters.islands is Some,
            scripts: emitters.client_scripts@.len(),
        },
        wait: BuildWait::Finished,
        outcome: Outcome {
            css_rerun: plan.rerun_css,
            islands_rerun: plan.rerun_islands,
            ..Outcome::nothing()
        },
        rewrites: Seq::empty(),
        queue: Seq::empty(),
    }
}

/// What came of what a build waited for. `E` is whatever the outside reports as
/// an error.
#[derive(Debug)]
pub enum ProdAnswer<E> {
    /// The rendered pages.
    Rendered(Result<Vec<RenderedPage>, E>),
    /// The asset, if there is one.
    Emitted(Result<Option<EmittedAsset>, E>),
    /// The write has been made.
    Written(Result<(), E>),
}

/// Why a build failed.
#[derive(Debug)]
pub enum ProdError<E> {
    /// Something that was called failed.
    Outside(E),
    /// A companion may not have this name.
    CompanionName(String),
}

/// The answer is one to what the build waits for.
pub open spec fn prod_answers<E>(wait: BuildWait, answer: ProdAnswer<E>) -> bool {
    match wait {
        BuildWait::Render => answer is Rendered,
        BuildWait::Emit(_) => answer is Emitted,
        BuildWait::Ship { .. } => answer is Written,
        BuildWait::Page => answer is Written,
        BuildWait::Finished => false,
    }
}

/// The error in the answer, if it is one.
pub open spec fn prod_error_of<E>(answer: ProdAnswer<E>) -> Option<E> {
    match answer {
        ProdAnswer::Rendered(Err(e)) => Some(e),
        ProdAnswer::Emitted(Err(e)) => Some(e),
        ProdAnswer::Written(Err(e)) => Some(e),
        _ => None,
    }
}

/// Where the build stands after an answer. An asset goes under the hash of its
/// content.
pub open spec fn prod_stepped<E>(build: Build, answer: ProdAnswer<E>) -> Build {
    match answer {
        ProdAnswer::Rendered(Ok(rendered)) => build.after_rendered(rendered@),
        ProdAnswer::Emitted(Ok(Some(asset))) => build.after_emitted(
            asset@,
            short_hash(sha256_digest(asset@.bytes)),
        ),
        ProdAnswer::Emitted(Ok(None)) => build.after_slot(build.wait->Emit_0),
        ProdAnswer::Written(Ok(_)) => build.after_written(),
        _ => build.at(BuildWait::Finished),
    }
}

#[derive(Debug)]
enum ProdWait {
    Render,
    Emit(Slot),
    Ship { slot: Slot, asset: EmittedAsset, hash: String, next: usize },
    Page,
    Finished,
}

impl ProdWait {
    spec fn stands_for(&self) -> BuildWait {
        match self {
            ProdWait::Render => BuildWait::Render,
            ProdWait::Emit(slot) => BuildWait::Emit(*slot),
            ProdWait::Ship { slot, asset, hash, next } => BuildWait::Ship {
                slot: *slot,
                asset: asset@,
                hash: hash@,
                next: *next as nat,
            },
            ProdWait::Page => BuildWait::Page,
            ProdWait::Finished => BuildWait::Finished,
        }
    }
}

/// What is to be done next in a build.
#[derive(Debug)]
pub enum ProdAction {
    /// Render these pages.
    Render { pages: Vec<PageId> },
    /// Produce this asset.
    Emit(Slot),
    /// Write the asset at this path below the dist root.
    WriteAsset { path: String, bytes: Vec<u8> },
    /// Write the companion at this path below the dist root.
    WriteCompanion { path: String, bytes: Vec<u8> },
    /// Write the page at this path below the dist root.
    WritePage { page: PageId, path: String, bytes: Vec<u8> },
    /// Nothing: the build is over.
    Finish,
}

/// The action is the one that the build waits for.
pub open spec fn prod_acts(build: Build, action: ProdAction) -> bool {
    match build.wait {
        BuildWait::Render => match action {
            ProdAction::Render { pages } => pages@ == build.setup.pages,
            _ => false,
        },
        BuildWait::Emit(slot) => action == ProdAction::Emit(slot),
        BuildWait::Ship { slot, asset, hash, next } => if next == 0 {
            match action {
                ProdAction::WriteAsset { path, bytes } => path@ == asset.dest(hash) && bytes@
                    == asset.bytes,
                _ => false,
            }
        } else {
            match action {
                ProdAction::WriteCompanion { path, bytes } => path@ == asset.companion_path(
                    hash,
                    next - 1,
                ) && bytes@ == asset.companions[next - 1].1,
                _ => false,
            }
        },
        BuildWait::Page => match action {
            ProdAction::WritePage { page, path, bytes } => page == build.queue[0].page && path@
                == build.queue[0].output_path@ && bytes@ == bytes_of(
                rewritten(build.queue[0].html@, build.rewrites),
            ),
            _ => false,
        },
        BuildWait::Finished => action is Finish,
    }
}

#[derive(Debug)]
struct ProdSetup {
    pages: Vec<PageId>,
    rerun_css: bool,
    rerun_islands: bool,
    rerun_client_scripts: bool,
    has_css: bool,
    has_islands: bool,
    scripts: usize,
}

impl ProdSetup {
    spec fn stands_for(&self) -> BuildSetup {
        BuildSetup {
            pages: self.pages@,
            rerun_css: self.rerun_css,
            rerun_islands: self.rerun_islands,
            rerun_client_scripts: self.rerun_client_scripts,
            has_css: self.has_css,
            has_islands: self.has_islands,
            scripts: self.scripts as nat,
        }
    }
}

/// One build of the production pipeline.
#[derive(Debug)]
pub struct ProdRun {
    setup: ProdSetup,
    wait: ProdWait,
    outcome: BuildOutcome,
    rewrites: Vec<Rewrite>,
    rendered: Vec<RenderedPage>,
    next_page: usize,
}

impl View for ProdRun {
    type V = Build;

    closed spec fn view(&self) -> Build {
        Build {
            setup: self.setup.stands_for(),
            wait: self.wait.stands_for(),
            outcome: self.outcome@,
            rewrites: rewrites_view(self.rewrites@),
            queue: self.rendered@.skip(self.next_page as int),
        }
    }
}

impl ProdRun {
    /// The run is one that can be gone on with.
    pub closed spec fn sound(&self) -> bool {
        &&& self.next_page <= self.rendered@.len()
        &&& self.wait is Page ==> self.next_page < self.rendered@.len()
        &&& match self.wait {
            ProdWait::Ship { slot, asset, hash, next } => next <= asset.companions@.len() && (slot
                matches Slot::Script(k) ==> k < self.setup.scripts),
            ProdWait::Emit(Slot::Script(k)) => k < self.setup.scripts,
            _ => true,
        }
    }

    fn to_page(&mut self)
        requires
            old(self).next_page <= old(self).rendered@.len(),
        ensures
            final(self)@ == old(self)@.to_page(),
            final(self).sound(),
    {
        reveal(Build::to_page);
        assert(self@.queue.len() == self.rendered@.len() - self.next_page);
        if self.next_page < self.rendered.len() {
            self.wait = ProdWait::Page;
        } else {
            self.wait = ProdWait::Finished;
        }
    }

    fn to_pages(&mut self)
        requires
            old(self).next_page <= old(self).rendered@.len(),
        ensures
            final(self)@ == old(self)@.to_pages(),
            final(self).sound(),
    {
        reveal(Build::to_pages);
        self.rewrites = sort_rewrites(&self.rewrites);
        self.to_page();
    }

    fn to_script(&mut self, k: usize)
        requires
            old(self).next_page <= old(self).rendered@.len(),
        ensures
            final(self)@ == old(self)@.to_script(k as int),
            final(self).sound(),
    {
        reveal(Build::to_script);
        if self.setup.rerun_client_scripts && k < self.setup.scripts {
            self.wait = ProdWait::Emit(Slot::Script(k));
        } else {
            self.to_pages();
        }
    }

    fn to_islands(&mut self)
        requires
            old(self).next_page <= old(self).rendered@.len(),
        ensures
            final(self)@ == old(self)@.to_islands(),
            final(self).sound(),
    {
        reveal(Build::to_islands);
        if self.setup.rerun_islands && self.setup.has_islands {
            self.wait = ProdWait::Emit(Slot::Islands);
        } else {
            self.to_script(0);
        }
    }

    fn to_css(&mut self)
        requires
            old(self).next_page <= old(self).rendered@.len(),
        ensures
            final(self)@ == old(self)@.to_css(),
            final(self).sound(),
    {
        reveal(Build::to_css);
        if self.setup.rerun_css && self.setup.has_css {
            self.wait = ProdWait::Emit(Slot::Css);
        } else {
            self.to_islands();
        }
    }

    fn begin(&mut self)
        requires
            old(self).next_page <= old(self).rendered@.len(),
        ensures
            final(self)@ == old(self)@.begin(),
            final(self).sound(),
    {
        reveal(Build::begin);
        if self.setup.pages.len() > 0 {
            self.wait = ProdWait::Render;
        } else {
            self.to_css();
        }
    }

    fn after_slot(&mut self, slot: Slot)
        requires
            old(self).next_page <= old(self).rendered@.len(),
            slot matches Slot::Script(k) ==> k < usize::MAX,
        ensures
            final(self)@ == old(self)@.after_slot(slot),
            final(self).sound(),
    {
        reveal(Build::after_slot);
        match slot {
            Slot::Css => self.to_islands(),
            Slot::Islands => self.to_script(0),
            Slot::Script(k) => self.to_script(k + 1),
        }
    }

    fn on_rendered(&mut self, rendered: Vec<RenderedPage>)
        ensures
            final(self)@ == old(self)@.after_rendered(rendered@),
            final(self).sound(),
    {
        reveal(Build::after_rendered);
        self.outcome.set_rendered(rendered.len());
        self.rendered = rendered;
        self.next_page = 0;
        assert(self@.queue =~= rendered@);
        self.to_css();
    }

    fn note_changed(&mut self, slot: Slot)
        ensures
            final(self)@ == old(self)@.changed(slot),
            final(self).next_page == old(self).next_page,
            final(self).rendered == old(self).rendered,
    {
        match slot {
            Slot::Css => self.outcome.set_css_changed(true),
            Slot::Islands => self.outcome.set_islands_changed(true),
            Slot::Script(_) => {},
        }
    }

    fn on_shipped(&mut self, slot: Slot, asset: EmittedAsset, hash: String)
        requires
            old(self).next_page <= old(self).rendered@.len(),
            slot matches Slot::Script(k) ==> k < usize::MAX,
        ensures
            final(self)@ == old(self)@.shipped(slot, asset@, hash@),
            final(self).sound(),
    {
        reveal(Build::shipped);
        let url = asset_url(&asset, hash.as_str());
        let kind = match slot {
            Slot::Css => AssetKind::Css,
            Slot::Islands => AssetKind::Islands,
            Slot::Script(_) => AssetKind::ClientScript,
        };
        let ghost before = rewrites_view(self.rewrites@);
        let ghost stable_url = opt_text(asset.stable_url);
        match asset.stable_url {
            Some(stable) => {
                self.rewrites.push(Rewrite { from: stable, to: url.clone() });
                assert(rewrites_view(self.rewrites@) =~= before.push((stable@, url@)));
            },
            None => {},
        }
        self.outcome.add_asset_url(kind, url);
        self.note_changed(slot);
        self.after_slot(slot);
    }

    /// Ships the asset under this hash. What is written, and under which URL,
    /// follows from the two.
    pub fn ship(&mut self, asset: EmittedAsset, hash: String)
        requires
            old(self).sound(),
            old(self)@.wait is Emit,
        ensures
            final(self).sound(),
            final(self)@ == old(self)@.after_emitted(asset@, hash@),
    {
        if let ProdWait::Emit(slot) = self.wait {
            self.wait = ProdWait::Ship { slot, asset, hash, next: 0 };
        }
    }

    fn on_page_written(&mut self)
        requires
            old(self).sound(),
            old(self)@.wait is Page,
        ensures
            final(self)@ == old(self)@.after_written(),
            final(self).sound(),
    {
        reveal(Build::after_written);
        let ghost before = self@;
        let count: usize = self.rendered.len();
        assert(self.next_page < count);
        assert(before.queue[0] == self.rendered@[self.next_page as int]);
        let page = self.rendered[self.next_page].page.copy();
        self.outcome.add_written(page);
        self.next_page = self.next_page + 1;
        assert(self@.queue =~= before.queue.drop_first());
        self.to_page();
    }

    fn on_file_written(&mut self) -> (r: Option<String>)
        requires
            old(self).sound(),
            old(self)@.wait is Ship,
        ensures
            final(self)@ == old(self)@.after_written(),
            final(self).sound(),
            match r {
                Some(name) => old(self)@.companion_refused()
                    && name@ == old(self)@.wait->Ship_asset.companions[old(self)@.wait->next as int].0,
                None => !old(self)@.companion_refused(),
            },
    {
        reveal(Build::after_written);
        let ghost before = self@;
        let mut wait = ProdWait::Finished;
        std::mem::swap(&mut wait, &mut self.wait);
        assert(self@ == before.at(BuildWait::Finished));
        if let ProdWait::Ship { slot, asset, hash, next } = wait {
            if next < asset.companions.len() {
                assert(asset@.companions[next as int] == asset.companions@[next as int]@);
                if is_flat_name(asset.companions[next].filename.as_str()) {
                    self.wait = ProdWait::Ship { slot, asset, hash, next: next + 1 };
                    None
                } else {
                    Some(asset.companions[next].filename.clone())
                }
            } else {
                proof {
                    lemma_shipped_forgets(before, slot, asset@, hash@);
                }
                self.on_shipped(slot, asset, hash);
                None
            }
        } else {
            None
        }
    }
}

proof fn lemma_after_slot_forgets(build: Build, slot: Slot)
    ensures
        build.after_slot(slot) == build.at(BuildWait::Finished).after_slot(slot),
        !(build.after_slot(slot).wait is Ship),
{
    reveal(Build::after_slot);
    reveal(Build::to_islands);
    reveal(Build::to_script);
    reveal(Build::to_pages);
    reveal(Build::to_page);
}

/// What a build waited for when an asset was shipped plays no part in what
/// comes next.
proof fn lemma_shipped_forgets(build: Build, slot: Slot, asset: Asset, hash: Seq<char>)
    ensures
        build.shipped(slot, asset, hash) == build.at(BuildWait::Finished).shipped(
            slot,
            asset,
            hash,
        ),
        !(build.shipped(slot, asset, hash).wait is Ship),
{
    reveal(Build::shipped);
    let url = asset.url(hash);
    let next = Build {
        outcome: Outcome {
            hashed_asset_urls: build.outcome.hashed_asset_urls.push((kind_of(slot), url)),
            ..build.outcome
        },
        rewrites: match asset.stable_url {
            Some(stable) => build.rewrites.push((stable, url)),
            None => build.rewrites,
        },
        ..build
    }.changed(slot);
    lemma_after_slot_forgets(next, slot);
}

/// A build goes on to ship only where an asset was emitted; otherwise it ships
/// on under the same hash.
proof fn lemma_ships_on<E>(build: Build, answer: ProdAnswer<E>)
    requires
        prod_answers(build.wait, answer),
    ensures
        ({
            let next = prod_stepped(build, answer);
            next.wait is Ship && !(answer is Emitted) ==> build.wait is Ship
                && next.wait->Ship_hash == build.wait->Ship_hash
        }),
        answer matches ProdAnswer::Emitted(Ok(None)) ==> !(prod_stepped(build, answer).wait is Ship),
{
    match answer {
        ProdAnswer::Rendered(Ok(rendered)) => {
            reveal(Build::after_rendered);
            lemma_begins_unshipped(
                Build {
                    outcome: Outcome { pages_rendered: rendered@.len(), ..build.outcome },
                    queue: rendered@,
                    ..build
                },
            );
        },
        ProdAnswer::Emitted(Ok(None)) => {
            lemma_after_slot_forgets(build, build.wait->Emit_0);
        },
        ProdAnswer::Written(Ok(_)) => {
            reveal(Build::after_written);
            match build.wait {
                BuildWait::Ship { slot, asset, hash, next } => {
                    lemma_shipped_forgets(build, slot, asset, hash);
                },
                _ => {
                    reveal(Build::to_page);
                },
            }
        },
        _ => {},
    }
}

proof fn lemma_begins_unshipped(build: Build)
    ensures
        !(build.to_css().wait is Ship),
        !(build.begin().wait is Ship),
{
    reveal(Build::begin);
    reveal(Build::to_css);
    reveal(Build::to_islands);
    reveal(Build::to_script);
    reveal(Build::to_pages);
    reveal(Build::to_page);
}

impl<T> ProductionAssetPipeline<T> {
    /// What produces the assets.
    pub closed spec fn production_emitters(&self) -> ProductionEmitters<T> {
        self.emitters
    }

    /// A pipeline with these emitters.
    pub fn new(emitters: ProductionEmitters<T>) -> (r: ProductionAssetPipeline<T>)
        ensures
            r.production_emitters() == emitters,
    {
        ProductionAssetPipeline { emitters }
    }

    /// A pipeline that ships no assets.
    pub fn empty() -> (r: ProductionAssetPipeline<T>)
        ensures
            r.production_emitters().css is None,
            r.production_emitters().islands is None,
            r.production_emitters().client_scripts@.len() == 0,
    {
        ProductionAssetPipeline::new(ProductionEmitters::default())
    }

    /// The emitters.
    pub fn emitters(&self) -> (r: &ProductionEmitters<T>)
        ensures
            *r == self.production_emitters(),
    {
        &self.emitters
    }

    /// Begins a build that carries out the plan. `None` where the plan selects
    /// all pages without naming them: that is refused.
    pub fn apply(&self, plan: &RebuildPlan) -> (r: Option<ProdRun>)
        ensures
            r is None <==> plan@.pages == Selection::All,
            r matches Some(run) ==> self.carries_out(*plan, run),
    {
        if plan.pages.is_all() {
            None
        } else {
            Some(self.start(plan))
        }
    }

    /// The build carries out the plan, and nothing is done of it yet.
    pub open spec fn carries_out(&self, plan: RebuildPlan, run: ProdRun) -> bool {
        &&& run.sound()
        &&& run@.short_hashed()
        &&& run@.setup.pages == plan.pages.listed()
        &&& run@ == build_opened(plan@, run@.setup.pages, self.production_emitters()).begin()
        &&& plan@.pages == Selection::Specific(page_key_set(run@.setup.pages))
        &&& ascending(page_keys(run@.setup.pages))
    }

    /// Begins a build that carries out a plan which names its pages.
    pub fn start(&self, plan: &RebuildPlan) -> (run: ProdRun)
        requires
            plan@.pages is Specific,
        ensures
            self.carries_out(*plan, run),
    {
        let mut outcome = BuildOutcome::default();
        outcome.css_rerun = plan.rerun_css;
        outcome.islands_rerun = plan.rerun_islands;
        let mut run = ProdRun {
            setup: ProdSetup {
                pages: plan.pages.to_list(),
                rerun_css: plan.rerun_css,
                rerun_islands: plan.rerun_islands,
                rerun_client_scripts: plan.rerun_client_scripts,
                has_css: self.emitters.css.is_some(),
                has_islands: self.emitters.islands.is_some(),
                scripts: self.emitters.client_scripts.len(),
            },
            wait: ProdWait::Finished,
            outcome,
            rewrites: Vec::new(),
            rendered: Vec::new(),
            next_page: 0,
        };
        let ghost first = run@;
        proof {
            let o = build_opened(plan@, run@.setup.pages, self.production_emitters());
            assert(run@.queue =~= Seq::empty());
            assert(run@.rewrites =~= Seq::empty());
            assert(run@.outcome == o.outcome);
            assert(run@ == o);
        }
        run.begin();
        proof {
            lemma_begin_keeps_setup(first);
            lemma_begins_unshipped(first);
        }
        run
    }
}

/// Beginning a build does not change what it is to do.
pub proof fn lemma_begin_keeps_setup(build: Build)
    ensures
        build.begin().setup == build.setup,
{
    reveal(Build::begin);
    reveal(Build::to_css);
    reveal(Build::to_islands);
    reveal(Build::to_script);
    reveal(Build::to_pages);
    reveal(Build::to_page);
}

impl ProdRun {
    /// What is to be done next.
    pub fn action(&self) -> (r: ProdAction)
        requires
            self.sound(),
        ensures
            prod_acts(self@, r),
    {
        match &self.wait {
            ProdWait::Render => ProdAction::Render { pages: copy_pages(&self.setup.pages) },
            ProdWait::Emit(slot) => ProdAction::Emit(*slot),
            ProdWait::Ship { slot, asset, hash, next } => {
                let entry = insert_hash_before_extension(
                    asset.relative_path.as_str(),
                    hash.as_str(),
                );
                if *next == 0 {
                    ProdAction::WriteAsset { path: entry, bytes: copy_bytes(&asset.bytes) }
                } else {
                    let companion: &CompanionFile = &asset.companions[*next - 1];
                    assert(asset@.companions[*next - 1] == asset.companions@[*next - 1]@);
                    let dir = parent(entry.as_str());
                    ProdAction::WriteCompanion {
                        path: join_path(dir.as_str(), companion.filename.as_str()),
                        bytes: copy_bytes(&companion.bytes),
                    }
                }
            },
            ProdWait::Page => {
                assert(self@.queue[0] == self.rendered@[self.next_page as int]);
                let first: &RenderedPage = &self.rendered[self.next_page];
                let body = rewrite_all(first.html.as_str(), &self.rewrites);
                ProdAction::WritePage {
                    page: first.page.copy(),
                    path: crate::text::copy_str(first.output_path.as_path()),
                    bytes: to_bytes(body.as_str()),
                }
            },
            ProdWait::Finished => ProdAction::Finish,
        }
    }

    /// Takes the answer to what the build waited for. Where it is an error, or
    /// the companion that comes next may not have its name, the build is over.
    pub fn resume<E>(&mut self, answer: ProdAnswer<E>) -> (r: Result<(), ProdError<E>>)
        requires
            old(self).sound(),
            prod_answers(old(self)@.wait, answer),
        ensures
            final(self).sound(),
            final(self)@ == prod_stepped(old(self)@, answer),
            old(self)@.short_hashed() ==> final(self)@.short_hashed(),
            match r {
                Ok(_) => prod_error_of(answer) is None && !old(self)@.companion_refused(),
                Err(ProdError::Outside(e)) => prod_error_of(answer) == Some(e),
                Err(ProdError::CompanionName(name)) => {
                    &&& prod_error_of(answer) is None
                    &&& old(self)@.companion_refused()
                    &&& name@ == old(self)@.wait->Ship_asset.companions[old(
                        self,
                    )@.wait->next as int].0
                },
            },
    {
        proof {
            lemma_ships_on(self@, answer);
        }
        match answer {
            ProdAnswer::Rendered(Ok(rendered)) => {
                self.on_rendered(rendered);
            },
            ProdAnswer::Emitted(Ok(Some(asset))) => {
                let hash = sha256_8(asset.bytes.as_slice());
                self.ship(asset, hash);
            },
            ProdAnswer::Emitted(Ok(None)) => {
                if let ProdWait::Emit(slot) = self.wait {
                    self.after_slot(slot);
                }
            },
            ProdAnswer::Written(Ok(_)) => {
                if let ProdWait::Page = self.wait {
                    self.on_page_written();
                } else {
                    match self.on_file_written() {
                        Some(name) => {
                            return Err(ProdError::CompanionName(name));
                        },
                        None => {},
                    }
                }
            },
            ProdAnswer::Rendered(Err(e)) => {
                self.wait = ProdWait::Finished;
                return Err(ProdError::Outside(e));
            },
            ProdAnswer::Emitted(Err(e)) => {
                self.wait = ProdWait::Finished;
                return Err(ProdError::Outside(e));
            },
            ProdAnswer::Written(Err(e)) => {
                self.wait = ProdWait::Finished;
                return Err(ProdError::Outside(e));
            },
        }
        Ok(())
    }

    /// What the build did.
    pub fn into_outcome(self) -> (r: BuildOutcome)
        ensures
            r@ == self@.outcome,
    {
        self.outcome
    }
}

} // verus!
