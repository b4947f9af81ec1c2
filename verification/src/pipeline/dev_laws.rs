//! What holds of every dev tick, whatever the answers are.

use vstd::prelude::*;

use crate::page::PageId;
use crate::pipeline::cache::Written;
use crate::pipeline::dev::{
    advanced, answers, error_of, opened, owned, stepped, unowned, unsafe_hint, Batch, DevAnswer,
    DevCapabilities, Run, Wait,
};
use crate::pipeline::publication::{endings, lemma_publication, Event, Fallback};
use crate::pipeline::{AssetKind, Outcome, RefreshOutcome, RenderedPage};
use crate::plan::{texts, Plan};

verus! {

/// The stages of a tick, in their order.
pub open spec fn stage(wait: Wait) -> nat {
    match wait {
        Wait::ClientScripts => 0,
        Wait::Islands => 1,
        Wait::SsrReload => 2,
        Wait::Remove(Batch::SsrVanished) => 3,
        Wait::Reload => 4,
        Wait::Render => 5,
        Wait::Validate => 6,
        Wait::Write { .. } => 6,
        Wait::Remove(Batch::Stale) => 7,
        Wait::Remove(Batch::Planned) => 8,
        Wait::Fallbacks => 9,
        Wait::Css => 10,
        Wait::Stale => 11,
        Wait::Ssr => 12,
        Wait::Dynamic => 13,
        Wait::Finished => 14,
    }
}

/// How much of the stage is left.
pub open spec fn left_in_stage(run: Run) -> nat {
    match run.wait {
        Wait::Validate => 2 * run.queue.len(),
        Wait::Write { .. } => (2 * run.queue.len() - 1) as nat,
        Wait::Remove(_) => run.doomed.len(),
        _ => 0,
    }
}

impl Run {
    /// The publication fits its events and was begun where there is something
    /// to publish, no asset is named by its content, and the outputs that the
    /// plan deletes are among those of vanished routes.
    pub open spec fn bookkept(self) -> bool {
        &&& self.publication.coherent()
        &&& self.publication.begun == self.relevant()
        &&& self.outcome.hashed_asset_urls == Seq::<(AssetKind, Seq<char>)>::empty()
        &&& forall|i: int|
            0 <= i < self.setup.prune_paths.len() ==> self.vanished.contains(
                #[trigger] self.setup.prune_paths[i],
            )
    }

    /// What is to be published is not committed yet.
    pub open spec fn uncommitted(self) -> bool {
        &&& self.bookkept()
        &&& self.publication.fallback == Fallback::Settled <==> !self.relevant()
    }

    /// Documents may have changed.
    pub open spec fn touched(self) -> bool {
        self.publication.fallback != Fallback::Abort
    }

    /// The plan's outputs go with those of vanished routes.
    pub open spec fn routes_take_plan(self) -> bool {
        self.has_documents() && !self.refresh_skipped
    }

    /// Each output that the plan deletes has been deleted, will be with the
    /// rest of this batch, or is owned by a page where it goes with those of
    /// vanished routes.
    pub open spec fn plan_dealt_with(self, rest: Seq<Seq<char>>) -> bool {
        forall|i: int|
            0 <= i < self.setup.prune_paths.len() ==> {
                let p = #[trigger] self.setup.prune_paths[i];
                ||| self.outcome.pages_pruned.contains(p)
                ||| rest.contains(p)
                ||| self.routes_take_plan() && owned(self.live, p)
            }
    }

    /// Where the tick stands is a place that a tick can come to.
    pub open spec fn orderly(self) -> bool {
        match self.wait {
            Wait::ClientScripts | Wait::Islands => self.uncommitted(),
            Wait::SsrReload => self.uncommitted() && !self.has_documents(),
            Wait::Reload => self.uncommitted() && self.has_documents(),
            Wait::Render => self.uncommitted() && self.has_documents() && self.touched(),
            Wait::Validate | Wait::Write { .. } => self.uncommitted() && self.has_documents()
                && self.queue.len() > 0 && self.touched(),
            Wait::Remove(Batch::SsrVanished) => self.uncommitted() && !self.has_documents()
                && self.doomed.len() > 0 && self.touched(),
            Wait::Remove(Batch::Stale) => {
                &&& self.uncommitted()
                &&& self.has_documents()
                &&& self.doomed.len() > 0
                &&& self.touched()
                &&& forall|i: int|
                    0 <= i < self.doomed.len() ==> !owned(self.live, #[trigger] self.doomed[i])
                &&& self.routes_take_plan() ==> self.plan_dealt_with(self.doomed)
            },
            Wait::Remove(Batch::Planned) => self.uncommitted() && !self.routes_take_plan()
                && self.doomed.len() > 0 && self.touched() && self.plan_dealt_with(self.doomed),
            Wait::Fallbacks => self.uncommitted() && self.relevant() && self.plan_dealt_with(
                Seq::empty(),
            ),
            Wait::Css | Wait::Stale | Wait::Ssr | Wait::Dynamic | Wait::Finished => {
                &&& self.bookkept()
                &&& self.publication.fallback == Fallback::Settled
                &&& self.plan_dealt_with(Seq::empty())
            },
        }
    }
}

/// `next` is where `run` comes to without any answer in between: it does the
/// same things, with the same hint, at stage `s` or later.
spec fn comes_to(run: Run, next: Run, s: nat) -> bool {
    &&& next.orderly()
    &&& next.setup == run.setup
    &&& next.narrowing == run.narrowing
    &&& stage(next.wait) >= s
}

spec fn settled(run: Run) -> bool {
    run.bookkept() && run.publication.fallback == Fallback::Settled && run.plan_dealt_with(
        Seq::empty(),
    )
}

proof fn lemma_to_css(run: Run)
    requires
        settled(run),
    ensures
        comes_to(run, run.to_css(), 10),
        comes_to(run, run.to_stale_probe(), 11),
        comes_to(run, run.to_ssr_probe(), 12),
        comes_to(run, run.to_dynamic_probe(), 13),
{
    reveal(Run::to_css);
    reveal(Run::to_stale_probe);
    reveal(Run::to_ssr_probe);
    reveal(Run::to_dynamic_probe);
}

proof fn lemma_committed(run: Run)
    requires
        run.uncommitted(),
        run.relevant(),
        run.plan_dealt_with(Seq::empty()),
    ensures
        comes_to(run, run.committed(), 10),
{
    reveal(Run::committed);
    let event = if run.has_documents() {
        Event::CommitPublished
    } else {
        Event::CommitEntriesOnly
    };
    lemma_publication(run.publication, Seq::empty(), Seq::empty(), event);
    lemma_to_css(Run { publication: run.publication.committed(event), ..run });
}

proof fn lemma_to_commit(run: Run)
    requires
        run.uncommitted(),
        run.plan_dealt_with(Seq::empty()),
    ensures
        comes_to(run, run.to_commit(), 9),
{
    reveal(Run::to_commit);
    if run.relevant() {
        lemma_committed(run);
    } else {
        lemma_to_css(run);
    }
}

proof fn lemma_to_planned(run: Run)
    requires
        run.uncommitted(),
        run.routes_take_plan() ==> run.plan_dealt_with(Seq::empty()),
    ensures
        comes_to(run, run.to_planned(), 8),
{
    reveal(Run::to_planned);
    if !run.routes_take_plan() && run.setup.prune_paths.len() > 0 {
        lemma_publication(
            run.publication,
            run.setup.prune_paths[0],
            Seq::empty(),
            Event::CommitPublished,
        );
    } else {
        lemma_to_commit(run);
    }
}

proof fn lemma_to_render(run: Run)
    requires
        run.uncommitted(),
    ensures
        comes_to(run, run.to_render(), 5),
{
    reveal(Run::to_render);
    if run.has_documents() {
        lemma_publication(run.publication, Seq::empty(), Seq::empty(), Event::CommitPublished);
    } else {
        lemma_to_planned(run);
    }
}

proof fn lemma_to_reload(run: Run)
    requires
        run.uncommitted(),
    ensures
        comes_to(run, run.to_reload(), 4),
        comes_to(run, run.to_ssr_reload(), 2),
        comes_to(run, run.to_islands(), 1),
        comes_to(run, run.begin(), 0),
{
    reveal(Run::to_reload);
    reveal(Run::to_ssr_reload);
    reveal(Run::to_islands);
    reveal(Run::begin);
    lemma_to_render(run);
}

/// The rest of a batch, or what follows it.
proof fn lemma_to_remove(run: Run, batch: Batch)
    requires
        run.uncommitted(),
        run.removed.len() > 0 ==> run.touched(),
        batch == Batch::SsrVanished ==> !run.has_documents(),
        batch == Batch::Stale ==> {
            &&& run.has_documents()
            &&& run.touched()
            &&& forall|i: int|
                0 <= i < run.doomed.len() ==> !owned(run.live, #[trigger] run.doomed[i])
            &&& run.routes_take_plan() ==> run.plan_dealt_with(run.doomed)
        },
        batch == Batch::Planned ==> !run.routes_take_plan() && run.plan_dealt_with(run.doomed),
    ensures
        comes_to(run, run.to_remove(batch), stage(Wait::Remove(batch))),
        run.doomed.len() == 0 ==> stage(run.to_remove(batch).wait) > stage(Wait::Remove(batch)),
        run.doomed.len() > 0 ==> left_in_stage(run.to_remove(batch)) == run.doomed.len(),
{
    reveal(Run::to_remove);
    if run.doomed.len() > 0 {
        lemma_publication(
            run.publication,
            run.doomed[0],
            Seq::empty(),
            Event::CommitPublished,
        );
    } else {
        let done = Run { publication: run.publication.paths_removed(run.removed), ..run };
        lemma_publication(
            run.publication,
            Seq::empty(),
            run.removed,
            Event::CommitPublished,
        );
        assert(run.doomed =~= Seq::empty());
        match batch {
            Batch::SsrVanished => {
                lemma_to_reload(done);
            },
            Batch::Stale => {
                lemma_to_planned(done);
            },
            Batch::Planned => {
                lemma_to_commit(done);
            },
        }
    }
}

proof fn lemma_unowned(list: Seq<Seq<char>>, live: Seq<Seq<char>>)
    ensures
        forall|i: int|
            0 <= i < unowned(list, live).len() ==> !owned(live, #[trigger] unowned(list, live)[i]),
        forall|p: Seq<char>| #[trigger]
            list.contains(p) && !owned(live, p) ==> unowned(list, live).contains(p),
    decreases list.len(),
{
    if list.len() > 0 {
        let before = unowned(list.drop_last(), live);
        lemma_unowned(list.drop_last(), live);
        assert forall|p: Seq<char>| #[trigger] list.contains(p) && !owned(
            live,
            p,
        ) implies unowned(list, live).contains(p) by {
            let i = list.index_of(p);
            assert(list[i] == p);
            if i < list.len() - 1 {
                assert(list.drop_last()[i] == p);
                assert(list.drop_last().contains(p));
                assert(before.contains(p));
                let j = before.index_of(p);
                assert(before[j] == p);
                if !owned(live, list.last()) {
                    assert(before.push(list.last())[j] == p);
                }
            } else {
                assert(before.push(p)[before.len() as int] == p);
            }
        }
    }
}

proof fn lemma_to_stale(run: Run)
    requires
        run.uncommitted(),
        run.has_documents(),
        run.touched(),
    ensures
        comes_to(run, run.to_stale(), 7),
{
    reveal(Run::to_stale);
    let list = if run.refresh_skipped {
        run.left_behind
    } else {
        run.left_behind + run.vanished
    };
    lemma_unowned(list, run.live);
    let next = Run { doomed: unowned(list, run.live), removed: Seq::empty(), ..run };
    if run.routes_take_plan() {
        assert forall|i: int| 0 <= i < run.setup.prune_paths.len() implies {
            let p = #[trigger] run.setup.prune_paths[i];
            ||| run.outcome.pages_pruned.contains(p)
            ||| next.doomed.contains(p)
            ||| run.routes_take_plan() && owned(run.live, p)
        } by {
            let p = run.setup.prune_paths[i];
            let j = run.vanished.index_of(p);
            assert(run.vanished[j] == p);
            assert(list[run.left_behind.len() + j] == p);
            assert(list.contains(p));
        }
        assert(next.plan_dealt_with(next.doomed));
    }
    lemma_to_remove(next, Batch::Stale);
}

proof fn lemma_to_page(run: Run)
    requires
        run.uncommitted(),
        run.has_documents(),
        run.touched(),
    ensures
        comes_to(run, run.to_page(), 6),
        run.queue.len() > 0 ==> left_in_stage(run.to_page()) == 2 * run.queue.len(),
        run.queue.len() == 0 ==> stage(run.to_page().wait) > 6,
{
    reveal(Run::to_page);
    if run.queue.len() > 0 {
        let path = crate::path::join_text(run.setup.dist_root, run.queue[0].output_path@);
        lemma_publication(run.publication, path, Seq::empty(), Event::CommitPublished);
    } else {
        lemma_to_stale(run);
    }
}

proof fn lemma_page_done(run: Run, stale: Option<Seq<char>>, written: bool)
    requires
        run.uncommitted(),
        run.has_documents(),
        run.touched(),
        run.queue.len() > 0,
    ensures
        comes_to(run, run.page_done(stale, written), 6),
        stage(run.page_done(stale, written).wait) > 6 || left_in_stage(
            run.page_done(stale, written),
        ) < 2 * run.queue.len() - 1,
{
    reveal(Run::page_done);
    reveal(Run::left);
    reveal(Run::noted);
    let path = crate::path::join_text(run.setup.dist_root, run.queue[0].output_path@);
    lemma_publication(run.publication, path, Seq::empty(), Event::CommitPublished);
    let done = Run {
        publication: run.publication.write_completed(path),
        ..run
    }.left(stale).noted(written);
    lemma_to_page(Run { queue: done.queue.drop_first(), ..done });
}

proof fn lemma_removed(run: Run, gone: bool)
    requires
        run.orderly(),
        run.wait is Remove,
    ensures
        comes_to(run, run.after_removed(gone), stage(run.wait)),
        stage(run.after_removed(gone).wait) > stage(run.wait) || left_in_stage(
            run.after_removed(gone),
        ) < left_in_stage(run),
{
    reveal(Run::after_removed);
    let first = run.doomed[0];
    let next = Run {
        removed: if gone {
            run.removed.push(first)
        } else {
            run.removed
        },
        outcome: Outcome { pages_pruned: run.outcome.pages_pruned.push(first), ..run.outcome },
        doomed: run.doomed.drop_first(),
        ..run
    };
    let batch = run.wait->Remove_0;
    if run.plan_dealt_with(run.doomed) {
        assert forall|i: int| 0 <= i < run.setup.prune_paths.len() implies {
            let p = #[trigger] run.setup.prune_paths[i];
            ||| next.outcome.pages_pruned.contains(p)
            ||| next.doomed.contains(p)
            ||| run.routes_take_plan() && owned(run.live, p)
        } by {
            let p = run.setup.prune_paths[i];
            let pruned = run.outcome.pages_pruned;
            if pruned.contains(p) {
                let j = pruned.index_of(p);
                assert(pruned.push(first)[j] == p);
            } else if run.doomed.contains(p) {
                let j = run.doomed.index_of(p);
                assert(run.doomed[j] == p);
                if j == 0 {
                    assert(pruned.push(first)[pruned.len() as int] == p);
                } else {
                    assert(run.doomed.drop_first()[j - 1] == p);
                }
            }
        }
        assert(next.plan_dealt_with(next.doomed));
    }
    if batch == Batch::Stale {
        assert forall|i: int| 0 <= i < next.doomed.len() implies !owned(
            next.live,
            #[trigger] next.doomed[i],
        ) by {
            assert(next.doomed[i] == run.doomed[i + 1]);
        }
    }
    lemma_to_remove(next, batch);
}

proof fn lemma_refreshed(run: Run, refresh: RefreshOutcome)
    requires
        run.orderly(),
        run.wait is SsrReload || run.wait is Reload,
    ensures
        ({
            let next = run.after_refresh(refresh);
            &&& next.orderly()
            &&& next.setup == run.setup
            &&& next.narrowing == run.narrowing || next.narrowing == unsafe_hint(run.narrowing)
            &&& stage(next.wait) > stage(run.wait)
        }),
{
    reveal(Run::after_refresh);
    match refresh {
        RefreshOutcome::Skipped => {
            if run.wait == Wait::SsrReload {
                lemma_to_reload(run);
            } else {
                lemma_to_render(Run { refresh_skipped: true, ..run });
            }
        },
        RefreshOutcome::Refreshed { vanished, changed_sources } => {
            if run.wait == Wait::SsrReload {
                lemma_to_remove(
                    Run { doomed: texts(vanished@), removed: Seq::empty(), ..run },
                    Batch::SsrVanished,
                );
            } else {
                let next = Run {
                    narrowing: if vanished@.len() > 0 || changed_sources@.len() > 0 {
                        unsafe_hint(run.narrowing)
                    } else {
                        run.narrowing
                    },
                    vanished: run.vanished + texts(vanished@),
                    ..run
                };
                assert forall|i: int| 0 <= i < run.setup.prune_paths.len() implies next.vanished.contains(
                    #[trigger] run.setup.prune_paths[i],
                ) by {
                    let p = run.setup.prune_paths[i];
                    let j = run.vanished.index_of(p);
                    assert(run.vanished[j] == p);
                    assert(next.vanished[j] == p);
                }
                lemma_to_render(next);
            }
        },
    }
}

/// `next` is a proper successor of `run`.
spec fn follows(run: Run, next: Run) -> bool {
    &&& next.orderly()
    &&& next.setup == run.setup
    &&& next.narrowing == run.narrowing || next.narrowing == unsafe_hint(run.narrowing)
    &&& stage(next.wait) > stage(run.wait) || stage(next.wait) == stage(run.wait)
        && left_in_stage(next) < left_in_stage(run)
}

proof fn lemma_pages(run: Run, cache: Written, rendered: Seq<RenderedPage>, dest: Seq<char>)
    requires
        run.orderly(),
    ensures
        run.wait is Render ==> follows(run, run.after_rendered(rendered)),
        run.wait is Validate ==> follows(run, run.after_validated(cache, dest)),
        run.wait is Write ==> follows(run, run.after_written()),
{
    reveal(Run::after_rendered);
    reveal(Run::after_validated);
    reveal(Run::after_written);
    if run.wait is Render {
        let next = Run {
            outcome: Outcome { pages_rendered: rendered.len(), ..run.outcome },
            queue: rendered,
            ..run
        };
        lemma_to_page(next);
    } else if run.wait is Validate {
        let page = run.queue[0];
        let stale = cache.moved_from(page.page.key(), dest);
        let owning = Run { live: run.live.push(dest), ..run };
        lemma_page_done(owning, stale, false);
    } else if run.wait is Write {
        lemma_page_done(run, run.wait->Write_stale, true);
    }
}

proof fn lemma_advanced<E>(run: Run, cache: Written, answer: DevAnswer<E>)
    requires
        run.orderly(),
        answers(run.wait, answer),
        error_of(answer) is None,
    ensures
        follows(run, advanced(run, cache, answer)),
{
    match answer {
        DevAnswer::ClientScripts(Ok(changed)) => {
            reveal(Run::after_client_scripts);
            lemma_to_reload(
                Run {
                    outcome: Outcome { client_scripts_changed: changed, ..run.outcome },
                    ..run
                },
            );
        },
        DevAnswer::Islands(Ok(info)) => {
            reveal(Run::after_islands);
            match info {
                Some(i) => {
                    lemma_to_reload(
                        Run {
                            outcome: Outcome {
                                islands_changed: i.changed,
                                islands_bundle: Some(i),
                                ..run.outcome
                            },
                            ..run
                        },
                    );
                },
                None => {
                    lemma_to_reload(run);
                },
            }
        },
        DevAnswer::Reloaded(Ok(refresh)) => {
            lemma_refreshed(run, refresh);
        },
        DevAnswer::Rendered(Ok(rendered)) => {
            lemma_pages(run, cache, rendered@, Seq::empty());
        },
        DevAnswer::Validated(Ok(dest)) => {
            lemma_pages(run, cache, Seq::empty(), dest@);
        },
        DevAnswer::Written(Ok(_)) => {
            lemma_pages(run, cache, Seq::empty(), Seq::empty());
        },
        DevAnswer::Removed(gone) => {
            lemma_removed(run, gone);
        },
        DevAnswer::Fallbacks(paths) => {
            reveal(Run::after_fallbacks);
            let p = texts(paths@);
            lemma_publication(run.publication, Seq::empty(), p, Event::CommitPublished);
            lemma_committed(
                Run {
                    publication: run.publication.emitted(Event::SnapshotLazyFallbacks(p)),
                    ..run
                },
            );
        },
        DevAnswer::Css(Ok(changed)) => {
            reveal(Run::after_css);
            lemma_to_css(Run { outcome: Outcome { css_changed: changed, ..run.outcome }, ..run });
        },
        DevAnswer::Stale(paths) => {
            reveal(Run::after_stale);
            lemma_to_css(
                Run { outcome: Outcome { pages_stale: texts(paths@), ..run.outcome }, ..run },
            );
        },
        DevAnswer::Ssr(published) => {
            reveal(Run::after_ssr);
            lemma_to_css(
                Run { outcome: Outcome { ssr_routes_published: published, ..run.outcome }, ..run },
            );
        },
        DevAnswer::Dynamic(restaled) => {
            reveal(Run::after_dynamic);
        },
        _ => {},
    }
}

/// A tick starts in order. Nothing is called before what is to be published is
/// announced.
pub proof fn lemma_tick_begins(
    plan: Plan,
    pages: Seq<PageId>,
    caps: DevCapabilities,
    dist_root: Seq<char>,
)
    requires
        plan.pages is Specific,
    ensures
        opened(plan, pages, caps, dist_root).begin().orderly(),
{
    let run = opened(plan, pages, caps, dist_root);
    assert(endings(seq![Event::Begin]) == 0) by {
        let log = seq![Event::Begin];
        assert(log.drop_last() =~= Seq::empty());
        assert(endings(log.drop_last()) == 0);
        assert(log.last() == Event::Begin);
    }
    assert forall|i: int| 0 <= i < run.setup.prune_paths.len() implies run.vanished.contains(
        #[trigger] run.setup.prune_paths[i],
    ) by {
        assert(run.vanished[i] == run.setup.prune_paths[i]);
    }
    lemma_to_reload(run);
}

/// Whatever the answer, the tick goes on to a later stage, or the stage has
/// less left. So scripts and islands are published before any page is rendered,
/// pages are written before anything that they may own is deleted, the
/// publication is committed before CSS runs, and every tick comes to an end.
pub proof fn lemma_tick_goes_forward<E>(run: Run, cache: Written, answer: DevAnswer<E>)
    requires
        run.orderly(),
        answers(run.wait, answer),
    ensures
        ({
            let next = stepped(run, cache, answer);
            &&& stage(next.wait) > stage(run.wait) || stage(next.wait) == stage(run.wait)
                && left_in_stage(next) < left_in_stage(run)
            &&& error_of(answer) is None ==> next.orderly()
            &&& error_of(answer) is Some ==> next.wait is Finished
            &&& next.setup == run.setup
        }),
{
    if error_of(answer) is None {
        lemma_advanced(run, cache, answer);
    }
}

/// When a tick is over, by success or by an error, its publication has ended
/// exactly once where one was begun, and not at all where none was.
pub proof fn lemma_tick_publishes_once<E>(run: Run, cache: Written, answer: DevAnswer<E>)
    requires
        run.orderly(),
        answers(run.wait, answer),
    ensures
        ({
            let next = stepped(run, cache, answer);
            &&& next.publication.coherent()
            &&& next.publication.begun == run.relevant()
            &&& next.wait is Finished ==> endings(next.publication.log) == (if run.relevant() {
                1nat
            } else {
                0nat
            })
        }),
{
    if error_of(answer) is None {
        lemma_advanced(run, cache, answer);
    } else {
        lemma_publication(run.publication, Seq::empty(), Seq::empty(), Event::CommitPublished);
    }
}

/// The hint for the renderer only ever loses the permission to narrow the
/// fan-out. The entries that it names stay.
pub proof fn lemma_hint_only_widens<E>(run: Run, cache: Written, answer: DevAnswer<E>)
    requires
        run.orderly(),
        answers(run.wait, answer),
    ensures
        stepped(run, cache, answer).narrowing == run.narrowing || stepped(
            run,
            cache,
            answer,
        ).narrowing == unsafe_hint(run.narrowing),
{
    if error_of(answer) is None {
        lemma_advanced(run, cache, answer);
    }
}

/// No output that a page of the tick owns is deleted with those that pages left
/// behind or that vanished.
pub proof fn lemma_live_outputs_stay(run: Run)
    requires
        run.orderly(),
        run.wait == Wait::Remove(Batch::Stale),
    ensures
        !owned(run.live, run.doomed[0]),
{
}

/// When a tick has succeeded, each output that the plan deletes has been
/// deleted, unless a page of the tick owns it and the routes were looked at
/// anew; and no asset is named by its content.
pub proof fn lemma_planned_outputs_go<E>(run: Run, cache: Written, answer: DevAnswer<E>, i: int)
    requires
        run.orderly(),
        answers(run.wait, answer),
        error_of(answer) is None,
        stepped(run, cache, answer).wait is Finished,
        0 <= i < run.setup.prune_paths.len(),
    ensures
        ({
            let next = stepped(run, cache, answer);
            let p = run.setup.prune_paths[i];
            &&& next.outcome.pages_pruned.contains(p) || next.routes_take_plan() && owned(
                next.live,
                p,
            )
            &&& next.outcome.hashed_asset_urls.len() == 0
        }),
{
    lemma_advanced(run, cache, answer);
}

} // verus!
