//! The dev pipeline: one tick as a machine that says what is to be done next
//! and is told what came of it.
//!
//! The order of a tick: client scripts and islands are published, then the
//! renderer is reloaded, pages are rendered and written, outputs that nothing
//! owns any more are deleted, the publication is committed, and only then do CSS
//! and the probes run.

use vstd::prelude::*;

use crate::page::{ascending, copy_pages, page_key_set, page_keys, PageId};
use crate::path::{join_path, join_text, parts, same_path};
use crate::pipeline::cache::{WriteCache, Written};
use crate::pipeline::publication::{
    events_view, DocumentPublicationEvent, DocumentPublicationTransaction, Event, Publication,
};
use crate::pipeline::{BuildOutcome, IslandsBundleInfo, Outcome, RefreshOutcome, RenderedPage};
use crate::plan::{
    append_texts, copy_texts, opt_text, texts, ContentNarrowing, Narrowing, RebuildPlan, Selection,
};

verus! {

/// What can be called in a tick.
#[derive(Debug, Clone, Copy, PartialEq, Eq, Structural)]
pub struct DevCapabilities {
    /// The client-scripts bundler.
    pub client_scripts: bool,
    /// The islands bundler.
    pub islands: bool,
    /// The renderer's reload.
    pub reload: bool,
    /// The CSS pipeline.
    pub css: bool,
    /// The snapshot of stale documents, with someone to hand it to.
    pub fallbacks: bool,
    /// The probe for stale routes.
    pub stale: bool,
    /// The probe for published server-rendered routes.
    pub ssr: bool,
    /// The probe for dynamic injected routes.
    pub dynamic: bool,
}

/// The outputs that are deleted together.
#[derive(Debug, Clone, Copy, PartialEq, Eq, Structural)]
pub enum Batch {
    /// Those that vanished when only the renderer was reloaded.
    SsrVanished,
    /// Those that pages left behind, and those of vanished routes.
    Stale,
    /// Those that the plan names.
    Planned,
}

/// What a tick waits for, for specifications.
pub enum Wait {
    ClientScripts,
    Islands,
    SsrReload,
    Reload,
    Render,
    /// Whether the first page of the queue may be written where it wants to be.
    Validate,
    /// The write of the first page of the queue.
    Write { dest: Seq<char>, bytes: Seq<u8>, stale: Option<Seq<char>> },
    /// The deletion of the first doomed path.
    Remove(Batch),
    Fallbacks,
    Css,
    Stale,
    Ssr,
    Dynamic,
    /// Nothing: the tick is over.
    Finished,
}

/// What a tick is to do, and with what.
pub struct Setup {
    /// The pages to render.
    pub pages: Seq<PageId>,
    pub rerun_css: bool,
    pub rerun_islands: bool,
    pub rerun_client_scripts: bool,
    pub renderer_fresh: bool,
    pub ssr_reload_needed: bool,
    /// The outputs that the plan deletes.
    pub prune_paths: Seq<Seq<char>>,
    pub dist_root: Seq<char>,
    pub caps: DevCapabilities,
}

/// Where a tick stands.
pub struct Run {
    /// What the tick is to do.
    pub setup: Setup,
    /// What the tick waits for.
    pub wait: Wait,
    /// What the tick has done.
    pub outcome: Outcome,
    /// The publication of the tick's documents.
    pub publication: Publication,
    /// The hint for the renderer.
    pub narrowing: Option<Narrowing>,
    /// Whether the renderer's reload found nothing changed.
    pub refresh_skipped: bool,
    /// The outputs of vanished routes.
    pub vanished: Seq<Seq<char>>,
    /// The rendered pages that are still to be written.
    pub queue: Seq<RenderedPage>,
    /// The outputs that pages of this tick own.
    pub live: Seq<Seq<char>>,
    /// The outputs that pages have left behind.
    pub left_behind: Seq<Seq<char>>,
    /// The outputs that are still to be deleted in this batch.
    pub doomed: Seq<Seq<char>>,
    /// The outputs that are gone in this batch.
    pub removed: Seq<Seq<char>>,
}

/// The path is one of the paths in the list, however it is spelled.
pub open spec fn owned(live: Seq<Seq<char>>, path: Seq<char>) -> bool {
    exists|i: int| 0 <= i < live.len() && parts(#[trigger] live[i]) == parts(path)
}

/// The paths of the list that no page owns, in order.
pub open spec fn unowned(list: Seq<Seq<char>>, live: Seq<Seq<char>>) -> Seq<Seq<char>>
    decreases list.len(),
{
    if list.len() == 0 {
        Seq::empty()
    } else {
        let before = unowned(list.drop_last(), live);
        if owned(live, list.last()) {
            before
        } else {
            before.push(list.last())
        }
    }
}

/// The hint, with the fan-out no longer safe to narrow.
pub open spec fn unsafe_hint(hint: Option<Narrowing>) -> Option<Narrowing> {
    match hint {
        Some(n) => Some(Narrowing { fan_out_safe: false, ..n }),
        None => None,
    }
}

impl Run {
    /// The tick writes documents.
    pub open spec fn has_documents(self) -> bool {
        self.setup.pages.len() > 0
    }

    /// The tick publishes something.
    pub open spec fn relevant(self) -> bool {
        self.has_documents() || self.setup.rerun_islands || self.setup.rerun_client_scripts
            || self.setup.ssr_reload_needed
    }

    pub open spec fn at(self, wait: Wait) -> Run {
        Run { wait, ..self }
    }

    #[verifier::opaque]
    pub open spec fn begin(self) -> Run {
        if self.setup.rerun_client_scripts && self.setup.caps.client_scripts {
            self.at(Wait::ClientScripts)
        } else {
            self.to_islands()
        }
    }

    #[verifier::opaque]
    pub open spec fn to_islands(self) -> Run {
        if self.setup.rerun_islands && self.setup.caps.islands {
            self.at(Wait::Islands)
        } else {
            self.to_ssr_reload()
        }
    }

    /// The renderer is reloaded though no page is rendered.
    #[verifier::opaque]
    pub open spec fn to_ssr_reload(self) -> Run {
        if !self.has_documents() && self.setup.ssr_reload_needed && !self.setup.renderer_fresh
            && self.setup.caps.reload {
            self.at(Wait::SsrReload)
        } else {
            self.to_reload()
        }
    }

    #[verifier::opaque]
    pub open spec fn to_reload(self) -> Run {
        if self.has_documents() && !self.setup.renderer_fresh && self.setup.caps.reload {
            self.at(Wait::Reload)
        } else {
            self.to_render()
        }
    }

    #[verifier::opaque]
    pub open spec fn to_render(self) -> Run {
        if self.has_documents() {
            Run { publication: self.publication.mutation_started(), ..self }.at(Wait::Render)
        } else {
            self.to_planned()
        }
    }

    /// The next page of the queue, or what follows the last one.
    #[verifier::opaque]
    pub open spec fn to_page(self) -> Run {
        if self.queue.len() > 0 {
            let path = join_text(self.setup.dist_root, self.queue[0].output_path@);
            Run { publication: self.publication.write_started(path), ..self }.at(Wait::Validate)
        } else {
            self.to_stale()
        }
    }

    /// Outputs that pages left behind go, and those of vanished routes unless
    /// the routes are as before; none that a page of this tick owns.
    #[verifier::opaque]
    pub open spec fn to_stale(self) -> Run {
        let list = if self.refresh_skipped {
            self.left_behind
        } else {
            self.left_behind + self.vanished
        };
        Run { doomed: unowned(list, self.live), removed: Seq::empty(), ..self }.to_remove(
            Batch::Stale,
        )
    }

    /// The next doomed path, or what follows the last one.
    #[verifier::opaque]
    pub open spec fn to_remove(self, batch: Batch) -> Run {
        if self.doomed.len() > 0 {
            Run { publication: self.publication.write_started(self.doomed[0]), ..self }.at(
                Wait::Remove(batch),
            )
        } else {
            let done = Run { publication: self.publication.paths_removed(self.removed), ..self };
            match batch {
                Batch::SsrVanished => done.to_reload(),
                Batch::Stale => done.to_planned(),
                Batch::Planned => done.to_commit(),
            }
        }
    }

    /// The plan's own outputs go, where the vanished routes have not taken them
    /// along.
    #[verifier::opaque]
    pub open spec fn to_planned(self) -> Run {
        if (!self.has_documents() || self.refresh_skipped) && self.setup.prune_paths.len() > 0 {
            Run {
                publication: self.publication.write_started(self.setup.prune_paths[0]),
                doomed: self.setup.prune_paths,
                removed: Seq::empty(),
                ..self
            }.at(Wait::Remove(Batch::Planned))
        } else {
            self.to_commit()
        }
    }

    #[verifier::opaque]
    pub open spec fn to_commit(self) -> Run {
        if self.relevant() {
            if self.setup.caps.fallbacks {
                self.at(Wait::Fallbacks)
            } else {
                self.committed()
            }
        } else {
            self.to_css()
        }
    }

    #[verifier::opaque]
    pub open spec fn committed(self) -> Run {
        let event = if self.has_documents() {
            Event::CommitPublished
        } else {
            Event::CommitEntriesOnly
        };
        Run { publication: self.publication.committed(event), ..self }.to_css()
    }

    #[verifier::opaque]
    pub open spec fn to_css(self) -> Run {
        if self.setup.rerun_css && self.setup.caps.css {
            self.at(Wait::Css)
        } else {
            self.to_stale_probe()
        }
    }

    #[verifier::opaque]
    pub open spec fn to_stale_probe(self) -> Run {
        if self.setup.caps.stale {
            self.at(Wait::Stale)
        } else {
            self.to_ssr_probe()
        }
    }

    #[verifier::opaque]
    pub open spec fn to_ssr_probe(self) -> Run {
        if self.setup.caps.ssr {
            self.at(Wait::Ssr)
        } else {
            self.to_dynamic_probe()
        }
    }

    #[verifier::opaque]
    pub open spec fn to_dynamic_probe(self) -> Run {
        if self.setup.caps.dynamic {
            self.at(Wait::Dynamic)
        } else {
            self.at(Wait::Finished)
        }
    }

    /// The tick failed: its publication is closed and nothing more is done.
    pub open spec fn failed(self) -> Run {
        Run { publication: self.publication.closed(), ..self }.at(Wait::Finished)
    }

    /// Some page has left this output behind.
    #[verifier::opaque]
    pub open spec fn left(self, stale: Option<Seq<char>>) -> Run {
        match stale {
            Some(p) => Run { left_behind: self.left_behind.push(p), ..self },
            None => self,
        }
    }

    /// The first page of the queue was written, or was not.
    #[verifier::opaque]
    pub open spec fn noted(self, written: bool) -> Run {
        if written {
            Run {
                outcome: Outcome {
                    pages_written: self.outcome.pages_written.push(self.queue[0].page),
                    ..self.outcome
                },
                ..self
            }
        } else {
            self
        }
    }

    /// The first page of the queue is where it belongs.
    #[verifier::opaque]
    pub open spec fn page_done(self, stale: Option<Seq<char>>, written: bool) -> Run {
        let path = join_text(self.setup.dist_root, self.queue[0].output_path@);
        let done = Run {
            publication: self.publication.write_completed(path),
            ..self
        }.left(stale).noted(written);
        Run { queue: done.queue.drop_first(), ..done }.to_page()
    }
}

/// What came of what a tick waited for. `E` is whatever the outside reports as
/// an error.
#[derive(Debug)]
pub enum DevAnswer<E> {
    /// Whether the client-scripts bundler wrote anything.
    ClientScripts(Result<bool, E>),
    /// What the islands bundler reports.
    Islands(Result<Option<IslandsBundleInfo>, E>),
    /// What reloading the renderer did.
    Reloaded(Result<RefreshOutcome, E>),
    /// The rendered pages.
    Rendered(Result<Vec<RenderedPage>, E>),
    /// The absolute path at which the output may be written.
    Validated(Result<String, E>),
    /// The write has been made.
    Written(Result<(), E>),
    /// Whether the file is gone.
    Removed(bool),
    /// The stale documents that have a fallback on disk.
    Fallbacks(Vec<String>),
    /// Whether the CSS pipeline has a new stylesheet.
    Css(Result<bool, E>),
    /// The output paths that were marked stale.
    Stale(Vec<String>),
    /// Whether server-rendered routes were published.
    Ssr(bool),
    /// Whether dynamic injected routes were marked stale.
    Dynamic(bool),
}

/// Why a tick failed.
#[derive(Debug)]
pub enum DevError<E> {
    /// Something that was called failed.
    Outside(E),
    /// The page may not be written where it wants to be.
    RefusedPage(PageId, E),
}

/// The answer is one to what the tick waits for.
pub open spec fn answers<E>(wait: Wait, answer: DevAnswer<E>) -> bool {
    match wait {
        Wait::ClientScripts => answer is ClientScripts,
        Wait::Islands => answer is Islands,
        Wait::SsrReload => answer is Reloaded,
        Wait::Reload => answer is Reloaded,
        Wait::Render => answer is Rendered,
        Wait::Validate => answer is Validated,
        Wait::Write { .. } => answer is Written,
        Wait::Remove(_) => answer is Removed,
        Wait::Fallbacks => answer is Fallbacks,
        Wait::Css => answer is Css,
        Wait::Stale => answer is Stale,
        Wait::Ssr => answer is Ssr,
        Wait::Dynamic => answer is Dynamic,
        Wait::Finished => false,
    }
}

/// The error in the answer, if it is one.
pub open spec fn error_of<E>(answer: DevAnswer<E>) -> Option<E> {
    match answer {
        DevAnswer::ClientScripts(Err(e)) => Some(e),
        DevAnswer::Islands(Err(e)) => Some(e),
        DevAnswer::Reloaded(Err(e)) => Some(e),
        DevAnswer::Rendered(Err(e)) => Some(e),
        DevAnswer::Validated(Err(e)) => Some(e),
        DevAnswer::Written(Err(e)) => Some(e),
        DevAnswer::Css(Err(e)) => Some(e),
        _ => None,
    }
}

/// The bytes of a text.
pub open spec fn bytes_of(text: Seq<char>) -> Seq<u8> {
    vstd::utf8::encode_utf8(text)
}

impl Run {
    #[verifier::opaque]
    pub open spec fn after_client_scripts(self, changed: bool) -> Run {
        Run {
            outcome: Outcome { client_scripts_changed: changed, ..self.outcome },
            ..self
        }.to_islands()
    }

    #[verifier::opaque]
    pub open spec fn after_islands(self, info: Option<IslandsBundleInfo>) -> Run {
        match info {
            Some(i) => Run {
                outcome: Outcome {
                    islands_changed: i.changed,
                    islands_bundle: Some(i),
                    ..self.outcome
                },
                ..self
            }.to_ssr_reload(),
            None => self.to_ssr_reload(),
        }
    }

    /// Where only the renderer was reloaded, the outputs of vanished routes go
    /// at once. Where pages are rendered next, they go after the pages are
    /// written, and routes that moved make it unsafe to narrow the fan-out.
    #[verifier::opaque]
    pub open spec fn after_refresh(self, refresh: RefreshOutcome) -> Run {
        match refresh {
            RefreshOutcome::Skipped => if self.wait == Wait::SsrReload {
                self.to_reload()
            } else {
                Run { refresh_skipped: true, ..self }.to_render()
            },
            RefreshOutcome::Refreshed { vanished, changed_sources } => if self.wait
                == Wait::SsrReload {
                Run { doomed: texts(vanished@), removed: Seq::empty(), ..self }.to_remove(
                    Batch::SsrVanished,
                )
            } else {
                Run {
                    narrowing: if vanished@.len() > 0 || changed_sources@.len() > 0 {
                        unsafe_hint(self.narrowing)
                    } else {
                        self.narrowing
                    },
                    vanished: self.vanished + texts(vanished@),
                    ..self
                }.to_render()
            },
        }
    }

    #[verifier::opaque]
    pub open spec fn after_rendered(self, rendered: Seq<RenderedPage>) -> Run {
        Run {
            outcome: Outcome { pages_rendered: rendered.len(), ..self.outcome },
            queue: rendered,
            ..self
        }.to_page()
    }

    /// The first page of the queue owns `dest`, and is written there unless that
    /// is what is there already.
    #[verifier::opaque]
    pub open spec fn after_validated(self, cache: Written, dest: Seq<char>) -> Run {
        let page = self.queue[0];
        let bytes = bytes_of(page.html@);
        let stale = cache.moved_from(page.page.key(), dest);
        let owning = Run { live: self.live.push(dest), ..self };
        if cache.differs(dest, bytes) {
            owning.at(Wait::Write { dest, bytes, stale })
        } else {
            owning.page_done(stale, false)
        }
    }

    #[verifier::opaque]
    pub open spec fn after_written(self) -> Run {
        self.page_done(self.wait->Write_stale, true)
    }

    #[verifier::opaque]
    pub open spec fn after_removed(self, gone: bool) -> Run {
        Run {
            removed: if gone {
                self.removed.push(self.doomed[0])
            } else {
                self.removed
            },
            outcome: Outcome {
                pages_pruned: self.outcome.pages_pruned.push(self.doomed[0]),
                ..self.outcome
            },
            doomed: self.doomed.drop_first(),
            ..self
        }.to_remove(self.wait->Remove_0)
    }

    #[verifier::opaque]
    pub open spec fn after_fallbacks(self, paths: Seq<Seq<char>>) -> Run {
        Run {
            publication: self.publication.emitted(Event::SnapshotLazyFallbacks(paths)),
            ..self
        }.committed()
    }

    #[verifier::opaque]
    pub open spec fn after_css(self, changed: bool) -> Run {
        Run { outcome: Outcome { css_changed: changed, ..self.outcome }, ..self }.to_stale_probe()
    }

    #[verifier::opaque]
    pub open spec fn after_stale(self, paths: Seq<Seq<char>>) -> Run {
        Run { outcome: Outcome { pages_stale: paths, ..self.outcome }, ..self }.to_ssr_probe()
    }

    #[verifier::opaque]
    pub open spec fn after_ssr(self, published: bool) -> Run {
        Run {
            outcome: Outcome { ssr_routes_published: published, ..self.outcome },
            ..self
        }.to_dynamic_probe()
    }

    #[verifier::opaque]
    pub open spec fn after_dynamic(self, restaled: bool) -> Run {
        Run {
            outcome: Outcome { dynamic_injected_restaled: restaled, ..self.outcome },
            ..self
        }.at(Wait::Finished)
    }

    /// What is remembered once the first page of the queue may be written at
    /// `dest`: that the page is there, where nothing has to be written.
    #[verifier::opaque]
    pub open spec fn known_after_validated(self, cache: Written, dest: Seq<char>) -> Written {
        let page = self.queue[0];
        if cache.differs(dest, bytes_of(page.html@)) {
            cache
        } else {
            cache.with_page(page.page.key(), dest)
        }
    }

    /// What is remembered once the first page of the queue is written: its
    /// bytes, and that it is there.
    #[verifier::opaque]
    pub open spec fn known_after_written(self, cache: Written) -> Written {
        cache.with_bytes(self.wait->Write_dest, self.wait->Write_bytes).with_page(
            self.queue[0].page.key(),
            self.wait->Write_dest,
        )
    }
}

/// Where the tick stands after an answer that is no error.
pub open spec fn advanced<E>(run: Run, cache: Written, answer: DevAnswer<E>) -> Run {
    match answer {
        DevAnswer::ClientScripts(Ok(changed)) => run.after_client_scripts(changed),
        DevAnswer::Islands(Ok(info)) => run.after_islands(info),
        DevAnswer::Reloaded(Ok(refresh)) => run.after_refresh(refresh),
        DevAnswer::Rendered(Ok(rendered)) => run.after_rendered(rendered@),
        DevAnswer::Validated(Ok(dest)) => run.after_validated(cache, dest@),
        DevAnswer::Written(Ok(_)) => run.after_written(),
        DevAnswer::Removed(gone) => run.after_removed(gone),
        DevAnswer::Fallbacks(paths) => run.after_fallbacks(texts(paths@)),
        DevAnswer::Css(Ok(changed)) => run.after_css(changed),
        DevAnswer::Stale(paths) => run.after_stale(texts(paths@)),
        DevAnswer::Ssr(published) => run.after_ssr(published),
        DevAnswer::Dynamic(restaled) => run.after_dynamic(restaled),
        _ => run,
    }
}

/// What is remembered of the writes after an answer that is no error. Nothing is
/// remembered of a path that has been deleted.
pub open spec fn remembered<E>(run: Run, cache: Written, answer: DevAnswer<E>) -> Written {
    match answer {
        DevAnswer::Validated(Ok(dest)) => run.known_after_validated(cache, dest@),
        DevAnswer::Written(Ok(_)) => run.known_after_written(cache),
        DevAnswer::Removed(_) => cache.evicted(run.doomed[0]),
        _ => cache,
    }
}

/// Where the tick stands after an answer.
pub open spec fn stepped<E>(run: Run, cache: Written, answer: DevAnswer<E>) -> Run {
    if error_of(answer) is Some {
        run.failed()
    } else {
        advanced(run, cache, answer)
    }
}

/// Where a tick stands before anything is done.
pub open spec fn opened(
    plan: crate::plan::Plan,
    pages: Seq<PageId>,
    caps: DevCapabilities,
    dist_root: Seq<char>,
) -> Run {
    let relevant = plan.pages == Selection::All || pages.len() > 0 || plan.rerun_islands
        || plan.rerun_client_scripts || plan.ssr_reload_needed;
    Run {
        setup: Setup {
            pages,
            rerun_css: plan.rerun_css,
            rerun_islands: plan.rerun_islands,
            rerun_client_scripts: plan.rerun_client_scripts,
            renderer_fresh: plan.renderer_fresh,
            ssr_reload_needed: plan.ssr_reload_needed,
            prune_paths: plan.prune_paths,
            dist_root,
            caps,
        },
        wait: Wait::Finished,
        outcome: Outcome {
            css_rerun: plan.rerun_css,
            islands_rerun: plan.rerun_islands,
            client_scripts_rerun: plan.rerun_client_scripts,
            ..Outcome::nothing()
        },
        publication: Publication::start(relevant),
        narrowing: if plan.renderer_fresh {
            unsafe_hint(plan.content_narrowing)
        } else {
            plan.content_narrowing
        },
        refresh_skipped: false,
        vanished: plan.prune_paths,
        queue: Seq::empty(),
        live: Seq::empty(),
        left_behind: Seq::empty(),
        doomed: Seq::empty(),
        removed: Seq::empty(),
    }
}

/// What a tick waits for.
#[derive(Debug)]
enum DevWait {
    ClientScripts,
    Islands,
    SsrReload,
    Reload,
    Render,
    Validate,
    Write { dest: String, bytes: Vec<u8>, stale: Option<String> },
    Remove(Batch),
    Fallbacks,
    Css,
    Stale,
    Ssr,
    Dynamic,
    Finished,
}

impl DevWait {
    spec fn stands_for(&self) -> Wait {
        match self {
            DevWait::ClientScripts => Wait::ClientScripts,
            DevWait::Islands => Wait::Islands,
            DevWait::SsrReload => Wait::SsrReload,
            DevWait::Reload => Wait::Reload,
            DevWait::Render => Wait::Render,
            DevWait::Validate => Wait::Validate,
            DevWait::Write { dest, bytes, stale } => Wait::Write {
                dest: dest@,
                bytes: bytes@,
                stale: opt_text(*stale),
            },
            DevWait::Remove(batch) => Wait::Remove(*batch),
            DevWait::Fallbacks => Wait::Fallbacks,
            DevWait::Css => Wait::Css,
            DevWait::Stale => Wait::Stale,
            DevWait::Ssr => Wait::Ssr,
            DevWait::Dynamic => Wait::Dynamic,
            DevWait::Finished => Wait::Finished,
        }
    }
}

/// What is to be done next in a tick.
#[derive(Debug)]
pub enum DevAction {
    /// Run the client-scripts bundler.
    RunClientScripts,
    /// Run the islands bundler.
    RunIslands,
    /// Reload the renderer.
    Reload,
    /// Render these pages, with this hint.
    Render { pages: Vec<PageId>, narrowing: Option<ContentNarrowing> },
    /// Find out whether the page may be written at this path below the dist
    /// root, and which absolute path that is.
    Validate { page: PageId, dist_root: String, output_path: String },
    /// Write these bytes.
    Write { dest: String, bytes: Vec<u8> },
    /// Delete this file.
    Remove { path: String },
    /// Collect the stale documents that have a fallback on disk.
    CollectFallbacks,
    /// Run the CSS pipeline.
    RunCss,
    /// Drain the stale routes.
    ProbeStale,
    /// Drain whether server-rendered routes were published.
    ProbeSsr,
    /// Drain whether dynamic injected routes were marked stale.
    ProbeDynamic,
    /// Nothing: the tick is over.
    Finish,
}

/// The action is the one that the tick waits for.
pub open spec fn acts(run: Run, action: DevAction) -> bool {
    match run.wait {
        Wait::ClientScripts => action is RunClientScripts,
        Wait::Islands => action is RunIslands,
        Wait::SsrReload => action is Reload,
        Wait::Reload => action is Reload,
        Wait::Render => match action {
            DevAction::Render { pages, narrowing } => pages@ == run.setup.pages && match narrowing {
                Some(n) => run.narrowing == Some(n@),
                None => run.narrowing is None,
            },
            _ => false,
        },
        Wait::Validate => match action {
            DevAction::Validate { page, dist_root, output_path } => page == run.queue[0].page
                && dist_root@ == run.setup.dist_root && output_path@ == run.queue[0].output_path@,
            _ => false,
        },
        Wait::Write { dest, bytes, stale } => match action {
            DevAction::Write { dest: d, bytes: b } => d@ == dest && b@ == bytes,
            _ => false,
        },
        Wait::Remove(_) => match action {
            DevAction::Remove { path } => path@ == run.doomed[0],
            _ => false,
        },
        Wait::Fallbacks => action is CollectFallbacks,
        Wait::Css => action is RunCss,
        Wait::Stale => action is ProbeStale,
        Wait::Ssr => action is ProbeSsr,
        Wait::Dynamic => action is ProbeDynamic,
        Wait::Finished => action is Finish,
    }
}

#[derive(Debug)]
struct DevSetup {
    pages: Vec<PageId>,
    rerun_css: bool,
    rerun_islands: bool,
    rerun_client_scripts: bool,
    renderer_fresh: bool,
    ssr_reload_needed: bool,
    prune_paths: Vec<String>,
    dist_root: String,
    caps: DevCapabilities,
}

impl DevSetup {
    spec fn stands_for(&self) -> Setup {
        Setup {
            pages: self.pages@,
            rerun_css: self.rerun_css,
            rerun_islands: self.rerun_islands,
            rerun_client_scripts: self.rerun_client_scripts,
            renderer_fresh: self.renderer_fresh,
            ssr_reload_needed: self.ssr_reload_needed,
            prune_paths: texts(self.prune_paths@),
            dist_root: self.dist_root@,
            caps: self.caps,
        }
    }
}

/// One tick of the dev pipeline.
pub struct DevRun {
    setup: DevSetup,
    wait: DevWait,
    outcome: BuildOutcome,
    publication: DocumentPublicationTransaction,
    narrowing: Option<ContentNarrowing>,
    refresh_skipped: bool,
    vanished: Vec<String>,
    rendered: Vec<RenderedPage>,
    next_page: usize,
    live: Vec<String>,
    left_behind: Vec<String>,
    doomed: Vec<String>,
    next_doomed: usize,
    removed: Vec<String>,
}

impl View for DevRun {
    type V = Run;

    closed spec fn view(&self) -> Run {
        Run {
            setup: self.setup.stands_for(),
            wait: self.wait.stands_for(),
            outcome: self.outcome@,
            publication: self.publication@,
            narrowing: match self.narrowing {
                Some(n) => Some(n@),
                None => None,
            },
            refresh_skipped: self.refresh_skipped,
            vanished: texts(self.vanished@),
            queue: self.rendered@.skip(self.next_page as int),
            live: texts(self.live@),
            left_behind: texts(self.left_behind@),
            doomed: texts(self.doomed@).skip(self.next_doomed as int),
            removed: texts(self.removed@),
        }
    }
}

fn is_owned(live: &Vec<String>, path: &str) -> (r: bool)
    ensures
        r == owned(texts(live@), path@),
{
    let mut i: usize = 0;
    while i < live.len()
        invariant
            i <= live@.len(),
            forall|k: int| 0 <= k < i ==> parts(#[trigger] texts(live@)[k]) != parts(path@),
        decreases live@.len() - i,
    {
        assert(texts(live@)[i as int] == live@[i as int]@);
        if same_path(live[i].as_str(), path) {
            return true;
        }
        i = i + 1;
    }
    assert(texts(live@).len() == live@.len());
    false
}

fn keep_unowned(list: &Vec<String>, live: &Vec<String>) -> (r: Vec<String>)
    ensures
        texts(r@) == unowned(texts(list@), texts(live@)),
{
    let ghost all = texts(list@);
    let mut out: Vec<String> = Vec::new();
    let mut i: usize = 0;
    assert(all.take(0) =~= Seq::empty());
    assert(texts(out@) =~= unowned(all.take(0), texts(live@)));
    while i < list.len()
        invariant
            i <= list@.len(),
            all == texts(list@),
            all.len() == list@.len(),
            texts(out@) == unowned(all.take(i as int), texts(live@)),
        decreases list@.len() - i,
    {
        assert(all.take(i as int + 1).drop_last() =~= all.take(i as int));
        assert(all.take(i as int + 1).last() == list@[i as int]@);
        if !is_owned(live, list[i].as_str()) {
            out.push(list[i].clone());
            assert(texts(out@) =~= unowned(all.take(i as int), texts(live@)).push(list@[i as int]@));
        }
        i = i + 1;
    }
    assert(all.take(i as int) =~= all);
    out
}

/// The bytes of a text.
pub fn to_bytes(text: &str) -> (r: Vec<u8>)
    ensures
        r@ == bytes_of(text@),
{
    text.as_bytes_vec()
}

/// A copy of the bytes.
pub fn copy_bytes(list: &Vec<u8>) -> (r: Vec<u8>)
    ensures
        r@ == list@,
{
    let mut out: Vec<u8> = Vec::new();
    let mut i: usize = 0;
    while i < list.len()
        invariant
            i <= list@.len(),
            out@ == list@.take(i as int),
        decreases list@.len() - i,
    {
        out.push(list[i]);
        i = i + 1;
        assert(out@ =~= list@.take(i as int));
    }
    assert(out@ =~= list@);
    out
}

impl DevRun {
    spec fn indexed(&self) -> bool {
        &&& self.next_page <= self.rendered@.len()
        &&& self.next_doomed <= self.doomed@.len()
    }

    /// There is a page to write, or a path to delete, where the tick waits for
    /// that.
    pub closed spec fn sound(&self) -> bool {
        &&& self.indexed()
        &&& (self.wait is Validate || self.wait is Write) ==> self.next_page < self.rendered@.len()
        &&& self.wait is Remove ==> self.next_doomed < self.doomed@.len()
    }

    /// The events of the publication that have been handed on.
    pub closed spec fn sent(&self) -> Seq<Event> {
        self.publication.sent()
    }

    fn to_dynamic_probe(&mut self)
        requires
            old(self).indexed(),
        ensures
            final(self)@ == old(self)@.to_dynamic_probe(),
            final(self).sound(),
            final(self).sent() == old(self).sent(),
            final(self)@.setup == old(self)@.setup,
    {
        reveal(Run::to_dynamic_probe);
        if self.setup.caps.dynamic {
            self.wait = DevWait::Dynamic;
        } else {
            self.wait = DevWait::Finished;
        }
    }

    fn to_ssr_probe(&mut self)
        requires
            old(self).indexed(),
        ensures
            final(self)@ == old(self)@.to_ssr_probe(),
            final(self).sound(),
            final(self).sent() == old(self).sent(),
            final(self)@.setup == old(self)@.setup,
    {
        reveal(Run::to_ssr_probe);
        if self.setup.caps.ssr {
            self.wait = DevWait::Ssr;
        } else {
            self.to_dynamic_probe();
        }
    }

    fn to_stale_probe(&mut self)
        requires
            old(self).indexed(),
        ensures
            final(self)@ == old(self)@.to_stale_probe(),
            final(self).sound(),
            final(self).sent() == old(self).sent(),
            final(self)@.setup == old(self)@.setup,
    {
        reveal(Run::to_stale_probe);
        if self.setup.caps.stale {
            self.wait = DevWait::Stale;
        } else {
            self.to_ssr_probe();
        }
    }

    fn to_css(&mut self)
        requires
            old(self).indexed(),
        ensures
            final(self)@ == old(self)@.to_css(),
            final(self).sound(),
            final(self).sent() == old(self).sent(),
            final(self)@.setup == old(self)@.setup,
    {
        reveal(Run::to_css);
        if self.setup.rerun_css && self.setup.caps.css {
            self.wait = DevWait::Css;
        } else {
            self.to_stale_probe();
        }
    }

    fn commit(&mut self)
        requires
            old(self).indexed(),
        ensures
            final(self)@ == old(self)@.committed(),
            final(self).sound(),
            final(self).sent() == old(self).sent(),
            final(self)@.setup == old(self)@.setup,
    {
        reveal(Run::committed);
        if self.setup.pages.len() > 0 {
            self.publication.commit(DocumentPublicationEvent::CommitPublished);
        } else {
            self.publication.commit(DocumentPublicationEvent::CommitEntriesOnly);
        }
        self.to_css();
    }

    fn to_commit(&mut self)
        requires
            old(self).indexed(),
        ensures
            final(self)@ == old(self)@.to_commit(),
            final(self).sound(),
            final(self).sent() == old(self).sent(),
            final(self)@.setup == old(self)@.setup,
    {
        reveal(Run::to_commit);
        if self.setup.pages.len() > 0 || self.setup.rerun_islands || self.setup.rerun_client_scripts
            || self.setup.ssr_reload_needed {
            if self.setup.caps.fallbacks {
                self.wait = DevWait::Fallbacks;
            } else {
                self.commit();
            }
        } else {
            self.to_css();
        }
    }

    fn to_planned(&mut self)
        requires
            old(self).indexed(),
        ensures
            final(self)@ == old(self)@.to_planned(),
            final(self).sound(),
            final(self).sent() == old(self).sent(),
            final(self)@.setup == old(self)@.setup,
    {
        reveal(Run::to_planned);
        assert(texts(self.setup.prune_paths@).len() == self.setup.prune_paths@.len());
        if (self.setup.pages.len() == 0 || self.refresh_skipped) && self.setup.prune_paths.len() > 0 {
            self.doomed = copy_texts(&self.setup.prune_paths);
            self.next_doomed = 0;
            self.removed = Vec::new();
            self.publication.document_write_started(self.doomed[0].clone());
            self.wait = DevWait::Remove(Batch::Planned);
            assert(texts(self.doomed@).skip(0) =~= texts(self.setup.prune_paths@));
            assert(texts(self.removed@) =~= Seq::empty());
            assert(self@ =~= old(self)@.to_planned());
        } else {
            self.to_commit();
        }
    }

    fn to_render(&mut self)
        requires
            old(self).indexed(),
        ensures
            final(self)@ == old(self)@.to_render(),
            final(self).sound(),
            final(self).sent() == old(self).sent(),
            final(self)@.setup == old(self)@.setup,
    {
        reveal(Run::to_render);
        if self.setup.pages.len() > 0 {
            self.publication.document_mutation_started();
            self.wait = DevWait::Render;
        } else {
            self.to_planned();
        }
    }

    fn to_reload(&mut self)
        requires
            old(self).indexed(),
        ensures
            final(self)@ == old(self)@.to_reload(),
            final(self).sound(),
            final(self).sent() == old(self).sent(),
            final(self)@.setup == old(self)@.setup,
    {
        reveal(Run::to_reload);
        if self.setup.pages.len() > 0 && !self.setup.renderer_fresh && self.setup.caps.reload {
            self.wait = DevWait::Reload;
        } else {
            self.to_render();
        }
    }

    fn to_remove(&mut self, batch: Batch)
        requires
            old(self).indexed(),
        ensures
            final(self)@ == old(self)@.to_remove(batch),
            final(self).sound(),
            final(self).sent() == old(self).sent(),
            final(self)@.setup == old(self)@.setup,
    {
        reveal(Run::to_remove);
        assert(texts(self.doomed@).len() == self.doomed@.len());
        assert(self@.doomed.len() == self.doomed@.len() - self.next_doomed);
        if self.next_doomed < self.doomed.len() {
            assert(self@.doomed[0] == self.doomed@[self.next_doomed as int]@);
            self.publication.document_write_started(self.doomed[self.next_doomed].clone());
            self.wait = DevWait::Remove(batch);
        } else {
            let removed = copy_texts(&self.removed);
            self.publication.document_paths_removed(removed);
            match batch {
                Batch::SsrVanished => self.to_reload(),
                Batch::Stale => self.to_planned(),
                Batch::Planned => self.to_commit(),
            }
        }
    }

    fn to_stale(&mut self)
        requires
            old(self).indexed(),
        ensures
            final(self)@ == old(self)@.to_stale(),
            final(self).sound(),
            final(self).sent() == old(self).sent(),
            final(self)@.setup == old(self)@.setup,
    {
        reveal(Run::to_stale);
        let mut list = copy_texts(&self.left_behind);
        if !self.refresh_skipped {
            append_texts(&mut list, &self.vanished);
            assert(texts(list@) =~= texts(self.left_behind@) + texts(self.vanished@));
        }
        self.doomed = keep_unowned(&list, &self.live);
        self.next_doomed = 0;
        self.removed = Vec::new();
        assert(texts(self.doomed@).skip(0) =~= texts(self.doomed@));
        assert(texts(self.removed@) =~= Seq::empty());
        assert(self@ =~= (Run {
            doomed: unowned(texts(list@), old(self)@.live),
            removed: Seq::empty(),
            ..old(self)@
        }));
        self.to_remove(Batch::Stale);
    }

    fn to_page(&mut self)
        requires
            old(self).indexed(),
        ensures
            final(self)@ == old(self)@.to_page(),
            final(self).sound(),
            final(self).sent() == old(self).sent(),
            final(self)@.setup == old(self)@.setup,
    {
        reveal(Run::to_page);
        assert(self@.queue.len() == self.rendered@.len() - self.next_page);
        if self.next_page < self.rendered.len() {
            let path = self.first_path();
            self.publication.document_write_started(path);
            self.wait = DevWait::Validate;
        } else {
            self.to_stale();
        }
    }

    fn leave_behind(&mut self, stale: Option<String>)
        requires
            old(self).indexed(),
        ensures
            final(self)@ == old(self)@.left(opt_text(stale)),
            final(self)@.queue == old(self)@.queue,
            final(self).indexed(),
            final(self).sent() == old(self).sent(),
            final(self)@.setup == old(self)@.setup,
    {
        reveal(Run::left);
        if let Some(p) = stale {
            let ghost before = texts(self.left_behind@);
            self.left_behind.push(p);
            assert(texts(self.left_behind@) =~= before.push(p@));
        }
    }

    fn first_page(&self) -> (r: PageId)
        requires
            self.indexed(),
            self@.queue.len() > 0,
        ensures
            r == self@.queue[0].page,
    {
        assert(self@.queue.len() == self.rendered@.len() - self.next_page);
        assert(self@.queue[0] == self.rendered@[self.next_page as int]);
        self.rendered[self.next_page].page.copy()
    }

    fn first_path(&self) -> (r: String)
        requires
            self.indexed(),
            self@.queue.len() > 0,
        ensures
            r@ == join_text(self@.setup.dist_root, self@.queue[0].output_path@),
    {
        assert(self@.queue.len() == self.rendered@.len() - self.next_page);
        assert(self@.queue[0] == self.rendered@[self.next_page as int]);
        let output = self.rendered[self.next_page].output_path.as_path();
        join_path(self.setup.dist_root.as_str(), output)
    }

    fn note_written(&mut self, written: bool)
        requires
            old(self).indexed(),
            old(self)@.queue.len() > 0,
        ensures
            final(self)@ == old(self)@.noted(written),
            final(self)@.queue == old(self)@.queue,
            final(self).indexed(),
            final(self).sent() == old(self).sent(),
            final(self)@.setup == old(self)@.setup,
    {
        reveal(Run::noted);
        if written {
            let page = self.first_page();
            self.outcome.add_written(page);
        }
    }

    fn next_in_queue(&mut self)
        requires
            old(self).indexed(),
            old(self)@.queue.len() > 0,
        ensures
            final(self)@ == (Run { queue: old(self)@.queue.drop_first(), ..old(self)@ }),
            final(self).indexed(),
            final(self).sent() == old(self).sent(),
            final(self)@.setup == old(self)@.setup,
    {
        assert(self@.queue.len() == self.rendered@.len() - self.next_page);
        assert(self.next_page < self.rendered.len());
        self.next_page = self.next_page + 1;
        assert(self@.queue =~= old(self)@.queue.drop_first());
    }

    fn page_done(&mut self, stale: Option<String>, written: bool)
        requires
            old(self).indexed(),
            old(self)@.queue.len() > 0,
        ensures
            final(self)@ == old(self)@.page_done(opt_text(stale), written),
            final(self).sound(),
            final(self).sent() == old(self).sent(),
            final(self)@.setup == old(self)@.setup,
    {
        let ghost start = self@;
        let path = self.first_path();
        let ghost text = path@;
        self.publication.document_write_completed(path);
        let ghost one = Run { publication: start.publication.write_completed(text), ..start };
        assert(self@ == one);
        self.leave_behind(stale);
        let ghost two = one.left(opt_text(stale));
        assert(self@ == two);
        self.note_written(written);
        let ghost three = two.noted(written);
        assert(self@ == three);
        self.next_in_queue();
        let ghost four = Run { queue: three.queue.drop_first(), ..three };
        assert(self@ == four);
        self.to_page();
        assert(four.to_page() == start.page_done(opt_text(stale), written)) by {
            reveal(Run::page_done);
        }
    }

    fn to_ssr_reload(&mut self)
        requires
            old(self).indexed(),
        ensures
            final(self)@ == old(self)@.to_ssr_reload(),
            final(self).sound(),
            final(self).sent() == old(self).sent(),
            final(self)@.setup == old(self)@.setup,
    {
        reveal(Run::to_ssr_reload);
        if self.setup.pages.len() == 0 && self.setup.ssr_reload_needed && !self.setup.renderer_fresh
            && self.setup.caps.reload {
            self.wait = DevWait::SsrReload;
        } else {
            self.to_reload();
        }
    }

    fn to_islands(&mut self)
        requires
            old(self).indexed(),
        ensures
            final(self)@ == old(self)@.to_islands(),
            final(self).sound(),
            final(self).sent() == old(self).sent(),
            final(self)@.setup == old(self)@.setup,
    {
        reveal(Run::to_islands);
        if self.setup.rerun_islands && self.setup.caps.islands {
            self.wait = DevWait::Islands;
        } else {
            self.to_ssr_reload();
        }
    }

    fn begin(&mut self)
        requires
            old(self).indexed(),
        ensures
            final(self)@ == old(self)@.begin(),
            final(self).sound(),
            final(self).sent() == old(self).sent(),
            final(self)@.setup == old(self)@.setup,
    {
        reveal(Run::begin);
        if self.setup.rerun_client_scripts && self.setup.caps.client_scripts {
            self.wait = DevWait::ClientScripts;
        } else {
            self.to_islands();
        }
    }

    fn fail(&mut self)
        requires
            old(self).indexed(),
        ensures
            final(self)@ == old(self)@.failed(),
            final(self).sound(),
            final(self).sent() == old(self).sent(),
            final(self)@.setup == old(self)@.setup,
    {
        self.publication.close();
        self.wait = DevWait::Finished;
    }

    fn on_client_scripts(&mut self, changed: bool)
        requires
            old(self).indexed(),
        ensures
            final(self)@ == old(self)@.after_client_scripts(changed),
            final(self).sound(),
            final(self).sent() == old(self).sent(),
            final(self)@.setup == old(self)@.setup,
    {
        reveal(Run::after_client_scripts);
        self.outcome.set_client_scripts_changed(changed);
        self.to_islands();
    }

    fn on_islands(&mut self, info: Option<IslandsBundleInfo>)
        requires
            old(self).indexed(),
        ensures
            final(self)@ == old(self)@.after_islands(info),
            final(self).sound(),
            final(self).sent() == old(self).sent(),
            final(self)@.setup == old(self)@.setup,
    {
        reveal(Run::after_islands);
        if let Some(i) = info {
            self.outcome.set_islands(i);
        }
        self.to_ssr_reload();
    }

    fn on_ssr_reloaded(&mut self, vanished: Vec<String>)
        requires
            old(self).indexed(),
        ensures
            final(self)@ == (Run {
                doomed: texts(vanished@),
                removed: Seq::empty(),
                ..old(self)@
            }).to_remove(Batch::SsrVanished),
            final(self).sound(),
            final(self).sent() == old(self).sent(),
            final(self)@.setup == old(self)@.setup,
    {
        let ghost start = self@;
        self.doomed = vanished;
        self.next_doomed = 0;
        self.removed = Vec::new();
        assert(texts(self.doomed@).skip(0) =~= texts(self.doomed@));
        assert(texts(self.removed@) =~= Seq::empty());
        assert(self@ == (Run { doomed: texts(vanished@), removed: Seq::empty(), ..start }));
        self.to_remove(Batch::SsrVanished);
    }

    fn unsafe_fan_out(&mut self)
        requires
            old(self).indexed(),
        ensures
            final(self)@ == (Run { narrowing: unsafe_hint(old(self)@.narrowing), ..old(self)@ }),
            final(self).indexed(),
            final(self).sent() == old(self).sent(),
            final(self)@.setup == old(self)@.setup,
    {
        if let Some(n) = &mut self.narrowing {
            n.fan_out_safe = false;
        }
    }

    fn on_reloaded(&mut self, vanished: Vec<String>, changed_sources: Vec<PageId>)
        requires
            old(self).indexed(),
        ensures
            final(self)@ == (Run {
                narrowing: if vanished@.len() > 0 || changed_sources@.len() > 0 {
                    unsafe_hint(old(self)@.narrowing)
                } else {
                    old(self)@.narrowing
                },
                vanished: old(self)@.vanished + texts(vanished@),
                ..old(self)@
            }).to_render(),
            final(self).sound(),
            final(self).sent() == old(self).sent(),
            final(self)@.setup == old(self)@.setup,
    {
        if vanished.len() > 0 || changed_sources.len() > 0 {
            self.unsafe_fan_out();
        }
        let ghost here = self@;
        append_texts(&mut self.vanished, &vanished);
        assert(texts(self.vanished@) =~= here.vanished + texts(vanished@));
        assert(self@ == (Run { vanished: here.vanished + texts(vanished@), ..here }));
        self.to_render();
    }

    fn on_refresh(&mut self, refresh: RefreshOutcome)
        requires
            old(self).indexed(),
            old(self)@.wait == Wait::SsrReload || old(self)@.wait == Wait::Reload,
        ensures
            final(self)@ == old(self)@.after_refresh(refresh),
            final(self).sound(),
            final(self).sent() == old(self).sent(),
            final(self)@.setup == old(self)@.setup,
    {
        reveal(Run::after_refresh);
        let only_reload = matches!(self.wait, DevWait::SsrReload);
        match refresh {
            RefreshOutcome::Skipped => {
                if only_reload {
                    self.to_reload();
                } else {
                    self.refresh_skipped = true;
                    self.to_render();
                }
            },
            RefreshOutcome::Refreshed { vanished, changed_sources } => {
                if only_reload {
                    self.on_ssr_reloaded(vanished);
                } else {
                    self.on_reloaded(vanished, changed_sources);
                }
            },
        }
    }

    fn on_rendered(&mut self, rendered: Vec<RenderedPage>)
        requires
            old(self).indexed(),
        ensures
            final(self)@ == old(self)@.after_rendered(rendered@),
            final(self).sound(),
            final(self).sent() == old(self).sent(),
            final(self)@.setup == old(self)@.setup,
    {
        reveal(Run::after_rendered);
        let ghost start = self@;
        self.outcome.set_rendered(rendered.len());
        self.rendered = rendered;
        self.next_page = 0;
        assert(self.rendered@.skip(0) =~= self.rendered@);
        assert(self@ == (Run {
            outcome: Outcome { pages_rendered: rendered@.len(), ..start.outcome },
            queue: rendered@,
            ..start
        }));
        self.to_page();
    }

    fn own(&mut self, dest: &String)
        requires
            old(self).indexed(),
        ensures
            final(self)@ == (Run { live: old(self)@.live.push(dest@), ..old(self)@ }),
            final(self).indexed(),
            final(self).sent() == old(self).sent(),
            final(self)@.setup == old(self)@.setup,
    {
        let ghost start = self@;
        self.live.push(dest.clone());
        assert(texts(self.live@) =~= start.live.push(dest@));
    }

    fn first_bytes(&self) -> (r: Vec<u8>)
        requires
            self.indexed(),
            self@.queue.len() > 0,
        ensures
            r@ == bytes_of(self@.queue[0].html@),
    {
        assert(self@.queue.len() == self.rendered@.len() - self.next_page);
        assert(self@.queue[0] == self.rendered@[self.next_page as int]);
        to_bytes(self.rendered[self.next_page].html.as_str())
    }

    fn on_validated(&mut self, cache: &mut WriteCache, dest: String)
        requires
            old(self).indexed(),
            old(self)@.queue.len() > 0,
        ensures
            final(self)@ == old(self)@.after_validated(old(cache)@, dest@),
            final(cache)@ == old(self)@.known_after_validated(old(cache)@, dest@),
            final(self).sound(),
            final(self).sent() == old(self).sent(),
            final(self)@.setup == old(self)@.setup,
    {
        reveal(Run::after_validated);
        reveal(Run::known_after_validated);
        let page = self.first_page();
        let bytes = self.first_bytes();
        self.own(&dest);
        let stale = cache.stale_path(&page, dest.as_str());
        assert(self@.queue.len() == self.rendered@.len() - self.next_page);
        if cache.needs_write(dest.as_str(), &bytes) {
            self.wait = DevWait::Write { dest, bytes, stale };
        } else {
            cache.commit_page(&page, dest.as_str());
            self.page_done(stale, false);
        }
    }

    fn on_written(&mut self, cache: &mut WriteCache)
        requires
            old(self).sound(),
            old(self)@.wait is Write,
        ensures
            final(self)@ == old(self)@.after_written(),
            final(cache)@ == old(self)@.known_after_written(old(cache)@),
            final(self).sound(),
            final(self).sent() == old(self).sent(),
            final(self)@.setup == old(self)@.setup,
    {
        reveal(Run::after_written);
        reveal(Run::known_after_written);
        assert(self@.queue.len() == self.rendered@.len() - self.next_page);
        let page = self.first_page();
        match &self.wait {
            DevWait::Write { dest, bytes, stale } => {
                let dest = dest.clone();
                let stale = stale.clone();
                cache.commit_bytes(dest.as_str(), copy_bytes(bytes));
                cache.commit_page(&page, dest.as_str());
                self.page_done(stale, true);
            },
            _ => {
                assert(false);
            },
        }
    }

    fn on_removed(&mut self, cache: &mut WriteCache, gone: bool)
        requires
            old(self).sound(),
            old(self)@.wait is Remove,
        ensures
            final(self)@ == old(self)@.after_removed(gone),
            final(cache)@ == old(cache)@.evicted(old(self)@.doomed[0]),
            final(self).sound(),
            final(self).sent() == old(self).sent(),
            final(self)@.setup == old(self)@.setup,
    {
        reveal(Run::after_removed);
        let ghost run = self@;
        assert(texts(self.doomed@).len() == self.doomed@.len());
        assert(run.doomed[0] == self.doomed@[self.next_doomed as int]@);
        let path = self.doomed[self.next_doomed].clone();
        let batch = match &self.wait {
            DevWait::Remove(batch) => *batch,
            _ => Batch::Planned,
        };
        if gone {
            self.removed.push(path.clone());
            assert(texts(self.removed@) =~= run.removed.push(path@));
        }
        cache.evict_path(path.as_str());
        self.outcome.add_pruned(path);
        assert(self.next_doomed < self.doomed.len());
        self.next_doomed = self.next_doomed + 1;
        assert(self@.doomed =~= run.doomed.drop_first());
        assert(self@ == (Run {
            removed: if gone {
                run.removed.push(run.doomed[0])
            } else {
                run.removed
            },
            outcome: Outcome {
                pages_pruned: run.outcome.pages_pruned.push(run.doomed[0]),
                ..run.outcome
            },
            doomed: run.doomed.drop_first(),
            ..run
        }));
        self.to_remove(batch);
    }

    fn on_fallbacks(&mut self, paths: Vec<String>)
        requires
            old(self).indexed(),
        ensures
            final(self)@ == old(self)@.after_fallbacks(texts(paths@)),
            final(self).sound(),
            final(self).sent() == old(self).sent(),
            final(self)@.setup == old(self)@.setup,
    {
        reveal(Run::after_fallbacks);
        self.publication.snapshot_lazy_fallbacks(paths);
        self.commit();
    }

    fn on_css(&mut self, changed: bool)
        requires
            old(self).indexed(),
        ensures
            final(self)@ == old(self)@.after_css(changed),
            final(self).sound(),
            final(self).sent() == old(self).sent(),
            final(self)@.setup == old(self)@.setup,
    {
        reveal(Run::after_css);
        self.outcome.set_css_changed(changed);
        self.to_stale_probe();
    }

    fn on_stale(&mut self, paths: Vec<String>)
        requires
            old(self).indexed(),
        ensures
            final(self)@ == old(self)@.after_stale(texts(paths@)),
            final(self).sound(),
            final(self).sent() == old(self).sent(),
            final(self)@.setup == old(self)@.setup,
    {
        reveal(Run::after_stale);
        self.outcome.set_stale(paths);
        self.to_ssr_probe();
    }

    fn on_ssr(&mut self, published: bool)
        requires
            old(self).indexed(),
        ensures
            final(self)@ == old(self)@.after_ssr(published),
            final(self).sound(),
            final(self).sent() == old(self).sent(),
            final(self)@.setup == old(self)@.setup,
    {
        reveal(Run::after_ssr);
        self.outcome.set_ssr_published(published);
        self.to_dynamic_probe();
    }

    fn on_dynamic(&mut self, restaled: bool)
        requires
            old(self).indexed(),
        ensures
            final(self)@ == old(self)@.after_dynamic(restaled),
            final(self).sound(),
            final(self).sent() == old(self).sent(),
            final(self)@.setup == old(self)@.setup,
    {
        reveal(Run::after_dynamic);
        self.outcome.set_dynamic_restaled(restaled);
        self.wait = DevWait::Finished;
    }
}

fn copy_hint(hint: &Option<ContentNarrowing>) -> (r: Option<ContentNarrowing>)
    ensures
        hint_view(r) == hint_view(*hint),
{
    match hint {
        Some(n) => Some(n.copy()),
        None => None,
    }
}

/// What an optional hint says.
pub open spec fn hint_view(hint: Option<ContentNarrowing>) -> Option<Narrowing> {
    match hint {
        Some(n) => Some(n@),
        None => None,
    }
}

impl DevRun {
    /// Begins a tick. `false` where the plan selects all pages without naming
    /// them: that is refused, and the tick is over.
    pub fn start(plan: &RebuildPlan, caps: DevCapabilities, dist_root: &str) -> (r: (DevRun, bool))
        ensures
            r.0.sound(),
            r.1 == (plan@.pages != Selection::All),
            ({
                let run = opened(plan@, r.0@.setup.pages, caps, dist_root@);
                r.0@ == if r.1 {
                    run.begin()
                } else {
                    run.failed()
                }
            }),
            r.0@.setup.pages == plan.pages.listed(),
            match plan@.pages {
                Selection::All => r.0@.setup.pages.len() == 0,
                Selection::Specific(set) => page_key_set(r.0@.setup.pages) == set && ascending(
                    page_keys(r.0@.setup.pages),
                ),
            },
            r.0.sent() == Seq::<Event>::empty(),
    {
        let pages = plan.pages.to_list();
        let all = plan.pages.is_all();
        let relevant = all || pages.len() > 0 || plan.rerun_islands || plan.rerun_client_scripts
            || plan.ssr_reload_needed;
        let mut outcome = BuildOutcome::default();
        outcome.css_rerun = plan.rerun_css;
        outcome.islands_rerun = plan.rerun_islands;
        outcome.client_scripts_rerun = plan.rerun_client_scripts;
        let setup = DevSetup {
            pages,
            rerun_css: plan.rerun_css,
            rerun_islands: plan.rerun_islands,
            rerun_client_scripts: plan.rerun_client_scripts,
            renderer_fresh: plan.renderer_fresh,
            ssr_reload_needed: plan.ssr_reload_needed,
            prune_paths: copy_texts(&plan.prune_paths),
            dist_root: crate::text::copy_str(dist_root),
            caps,
        };
        let mut run = DevRun {
            setup,
            wait: DevWait::Finished,
            outcome,
            publication: DocumentPublicationTransaction::begin(relevant),
            narrowing: copy_hint(&plan.content_narrowing),
            refresh_skipped: false,
            vanished: copy_texts(&plan.prune_paths),
            rendered: Vec::new(),
            next_page: 0,
            live: Vec::new(),
            left_behind: Vec::new(),
            doomed: Vec::new(),
            next_doomed: 0,
            removed: Vec::new(),
        };
        if plan.renderer_fresh {
            run.unsafe_fan_out();
        }
        proof {
            let o = opened(plan@, run@.setup.pages, caps, dist_root@);
            assert(run@.queue =~= Seq::empty());
            assert(run@.live =~= Seq::empty());
            assert(run@.left_behind =~= Seq::empty());
            assert(run@.doomed =~= Seq::empty());
            assert(run@.removed =~= Seq::empty());
            assert(run@.outcome == o.outcome);
            assert(run@ == o);
        }
        if all {
            run.fail();
            (run, false)
        } else {
            run.begin();
            (run, true)
        }
    }

    /// What is to be done next.
    pub fn action(&self) -> (r: DevAction)
        requires
            self.sound(),
        ensures
            acts(self@, r),
    {
        assert(self@.queue.len() == self.rendered@.len() - self.next_page);
        match &self.wait {
            DevWait::ClientScripts => DevAction::RunClientScripts,
            DevWait::Islands => DevAction::RunIslands,
            DevWait::SsrReload => DevAction::Reload,
            DevWait::Reload => DevAction::Reload,
            DevWait::Render => DevAction::Render {
                pages: copy_pages(&self.setup.pages),
                narrowing: copy_hint(&self.narrowing),
            },
            DevWait::Validate => {
                assert(self@.queue[0] == self.rendered@[self.next_page as int]);
                DevAction::Validate {
                    page: self.first_page(),
                    dist_root: self.setup.dist_root.clone(),
                    output_path: crate::text::copy_str(
                        self.rendered[self.next_page].output_path.as_path(),
                    ),
                }
            },
            DevWait::Write { dest, bytes, .. } => DevAction::Write {
                dest: dest.clone(),
                bytes: copy_bytes(bytes),
            },
            DevWait::Remove(_) => {
                assert(self@.doomed[0] == self.doomed@[self.next_doomed as int]@);
                DevAction::Remove { path: self.doomed[self.next_doomed].clone() }
            },
            DevWait::Fallbacks => DevAction::CollectFallbacks,
            DevWait::Css => DevAction::RunCss,
            DevWait::Stale => DevAction::ProbeStale,
            DevWait::Ssr => DevAction::ProbeSsr,
            DevWait::Dynamic => DevAction::ProbeDynamic,
            DevWait::Finished => DevAction::Finish,
        }
    }

    /// Takes the answer to what the tick waited for. Where it is an error the
    /// tick is over, and nothing is remembered of what failed.
    pub fn resume<E>(&mut self, cache: &mut WriteCache, answer: DevAnswer<E>) -> (r: Result<
        (),
        DevError<E>,
    >)
        requires
            old(self).sound(),
            answers(old(self)@.wait, answer),
        ensures
            final(self).sound(),
            final(self).sent() == old(self).sent(),
            final(self)@.setup == old(self)@.setup,
            final(self)@ == stepped(old(self)@, old(cache)@, answer),
            final(cache)@ == (if error_of(answer) is Some {
                old(cache)@
            } else {
                remembered(old(self)@, old(cache)@, answer)
            }),
            match r {
                Ok(_) => error_of(answer) is None,
                Err(DevError::Outside(e)) => !(answer is Validated) && error_of(answer) == Some(e),
                Err(DevError::RefusedPage(page, e)) => answer is Validated && error_of(answer)
                    == Some(e) && page == old(self)@.queue[0].page,
            },
    {
        assert(self@.queue.len() == self.rendered@.len() - self.next_page);
        match answer {
            DevAnswer::ClientScripts(Ok(changed)) => {
                self.on_client_scripts(changed);
            },
            DevAnswer::Islands(Ok(info)) => {
                self.on_islands(info);
            },
            DevAnswer::Reloaded(Ok(refresh)) => {
                self.on_refresh(refresh);
            },
            DevAnswer::Rendered(Ok(rendered)) => {
                self.on_rendered(rendered);
            },
            DevAnswer::Validated(Ok(dest)) => {
                self.on_validated(cache, dest);
            },
            DevAnswer::Written(Ok(_)) => {
                self.on_written(cache);
            },
            DevAnswer::Removed(gone) => {
                self.on_removed(cache, gone);
            },
            DevAnswer::Fallbacks(paths) => {
                self.on_fallbacks(paths);
            },
            DevAnswer::Css(Ok(changed)) => {
                self.on_css(changed);
            },
            DevAnswer::Stale(paths) => {
                self.on_stale(paths);
            },
            DevAnswer::Ssr(published) => {
                self.on_ssr(published);
            },
            DevAnswer::Dynamic(restaled) => {
                self.on_dynamic(restaled);
            },
            DevAnswer::Validated(Err(e)) => {
                let page = self.first_page();
                self.fail();
                return Err(DevError::RefusedPage(page, e));
            },
            DevAnswer::ClientScripts(Err(e)) | DevAnswer::Islands(Err(e)) | DevAnswer::Reloaded(
                Err(e),
            ) | DevAnswer::Rendered(Err(e)) | DevAnswer::Written(Err(e)) | DevAnswer::Css(Err(e)) => {
                self.fail();
                return Err(DevError::Outside(e));
            },
        }
        Ok(())
    }

    /// Takes out the events of the publication that are to be handed on now.
    pub fn take_events(&mut self) -> (r: Vec<DocumentPublicationEvent>)
        requires
            old(self).sound(),
        ensures
            final(self).sound(),
            final(self)@ == old(self)@,
            old(self)@.publication.log == old(self).sent() + events_view(r@),
            final(self).sent() == old(self)@.publication.log,
    {
        self.publication.take()
    }

    /// Leaves the tick where it stands: its publication is closed, and nothing
    /// more is done.
    pub fn abandon(&mut self)
        requires
            old(self).sound(),
        ensures
            final(self).sound(),
            final(self).sent() == old(self).sent(),
            final(self)@ == old(self)@.failed(),
    {
        self.fail();
    }

    /// What the tick did.
    pub fn into_outcome(self) -> (r: BuildOutcome)
        ensures
            r@ == self@.outcome,
    {
        self.outcome
    }
}

} // verus!
