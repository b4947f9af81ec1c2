//! What a dev tick announces of its documents over its whole course.

use vstd::prelude::*;

use crate::page::PageId;
use crate::path::join_text;
use crate::pipeline::cache::Written;
use crate::pipeline::dev::{
    advanced, answers, error_of, opened, unowned, unsafe_hint, Batch, DevAnswer, DevCapabilities,
    Run, Wait,
};
use crate::pipeline::dev_laws::stage;
use crate::pipeline::order_laws::{goes, lemma_no_reload_yet, lemma_prefix, run_after};
use crate::pipeline::publication::Event;
use crate::pipeline::walk::{lemma_begins, lemma_steps, placed_at, waits_fit};
use crate::pipeline::{Outcome, RefreshOutcome, RenderedPage};
use crate::plan::{texts, Plan};

verus! {

/// How a tick that publishes something is committed.
spec fn commit(run: Run) -> Event {
    if run.has_documents() {
        Event::CommitPublished
    } else {
        Event::CommitEntriesOnly
    }
}

/// Where the page is announced to be written.
spec fn announced_at(run: Run, page: RenderedPage) -> Seq<char> {
    join_text(run.setup.dist_root, page.output_path@)
}

/// What is about to change is announced, and what is done is committed.
spec fn announced(run: Run) -> bool {
    let log = run.publication.log;
    &&& run.relevant() && stage(run.wait) >= 10 ==> log.contains(commit(run))
    &&& run.wait is Validate || run.wait is Write ==> log.contains(
        Event::DocumentWriteStarted(announced_at(run, run.queue[0])),
    )
    &&& run.wait is Remove ==> log.contains(Event::DocumentWriteStarted(run.doomed[0]))
}

/// `next` is where `run` comes to without any answer in between: what it has
/// announced stays, in order.
spec fn follows(run: Run, next: Run) -> bool {
    &&& next.setup == run.setup
    &&& run.publication.log.is_prefix_of(next.publication.log)
    &&& announced(next)
}

proof fn lemma_pushed(log: Seq<Event>, event: Event)
    ensures
        log.is_prefix_of(log.push(event)),
        log.push(event).contains(event),
{
    assert(log.push(event)[log.len() as int] == event);
    assert(log =~= log.push(event).take(log.len() as int));
}

proof fn lemma_prefix_contains(a: Seq<Event>, b: Seq<Event>, event: Event)
    requires
        a.is_prefix_of(b),
        a.contains(event),
    ensures
        b.contains(event),
{
    let i = choose|i: int| 0 <= i < a.len() && a[i] == event;
    assert(b[i] == a[i]);
}

proof fn lemma_prefix_of_prefix(a: Seq<Event>, b: Seq<Event>, c: Seq<Event>)
    requires
        a.is_prefix_of(b),
        b.is_prefix_of(c),
    ensures
        a.is_prefix_of(c),
{
    assert(a =~= c.take(a.len() as int)) by {
        assert forall|i: int| 0 <= i < a.len() implies a[i] == c[i] by {
            assert(a[i] == b[i] && b[i] == c[i]);
        }
    }
}

proof fn lemma_started(run: Run, path: Seq<char>)
    ensures
        run.publication.log.is_prefix_of(run.publication.write_started(path).log),
        run.publication.write_started(path).log.contains(Event::DocumentWriteStarted(path)),
{
    let p = run.publication;
    lemma_pushed(p.log, Event::DocumentMutationStarted);
    let m = p.mutation_started();
    lemma_pushed(m.log, Event::DocumentWriteStarted(path));
    lemma_prefix_of_prefix(p.log, m.log, m.log.push(Event::DocumentWriteStarted(path)));
}

proof fn lemma_settled(run: Run)
    requires
        run.relevant() ==> run.publication.log.contains(commit(run)),
    ensures
        follows(run, run.to_dynamic_probe()),
        follows(run, run.to_ssr_probe()),
        follows(run, run.to_stale_probe()),
        follows(run, run.to_css()),
{
    reveal(Run::to_css);
    reveal(Run::to_stale_probe);
    reveal(Run::to_ssr_probe);
    reveal(Run::to_dynamic_probe);
}

proof fn lemma_commits(run: Run)
    ensures
        run.relevant() ==> follows(run, run.committed()),
        follows(run, run.to_commit()),
        follows(run, run.to_planned()),
{
    reveal(Run::committed);
    reveal(Run::to_commit);
    reveal(Run::to_planned);
    lemma_pushed(run.publication.log, commit(run));
    let done = Run { publication: run.publication.committed(commit(run)), ..run };
    lemma_settled(done);
    lemma_prefix_of_prefix(
        run.publication.log,
        done.publication.log,
        done.to_css().publication.log,
    );
    if !run.relevant() {
        lemma_settled(run);
    }
    if run.setup.prune_paths.len() > 0 {
        lemma_started(run, run.setup.prune_paths[0]);
    }
}

proof fn lemma_early(run: Run)
    ensures
        follows(run, run.to_render()),
        follows(run, run.to_reload()),
        follows(run, run.to_ssr_reload()),
        follows(run, run.to_islands()),
        follows(run, run.begin()),
{
    reveal(Run::to_render);
    reveal(Run::to_reload);
    reveal(Run::to_ssr_reload);
    reveal(Run::to_islands);
    reveal(Run::begin);
    lemma_commits(run);
    lemma_pushed(run.publication.log, Event::DocumentMutationStarted);
}

proof fn lemma_remove(run: Run, batch: Batch)
    ensures
        follows(run, run.to_remove(batch)),
        run.doomed.len() > 0 ==> run.to_remove(batch).removed == run.removed && run.to_remove(
            batch,
        ).wait is Remove,
        run.doomed.len() == 0 && run.removed.len() > 0 ==> run.to_remove(
            batch,
        ).publication.log.contains(Event::DocumentPathsRemoved(run.removed)),
{
    reveal(Run::to_remove);
    if run.doomed.len() > 0 {
        lemma_started(run, run.doomed[0]);
    } else {
        let event = Event::DocumentPathsRemoved(run.removed);
        lemma_pushed(run.publication.log, event);
        let done = Run { publication: run.publication.paths_removed(run.removed), ..run };
        let next = run.to_remove(batch);
        lemma_commits(done);
        lemma_early(done);
        lemma_prefix_of_prefix(run.publication.log, done.publication.log, next.publication.log);
        if run.removed.len() > 0 {
            lemma_prefix_contains(done.publication.log, next.publication.log, event);
        }
    }
}

proof fn lemma_page(run: Run)
    ensures
        follows(run, run.to_page()),
{
    reveal(Run::to_page);
    reveal(Run::to_stale);
    if run.queue.len() > 0 {
        lemma_started(run, announced_at(run, run.queue[0]));
    }
    let list = if run.refresh_skipped {
        run.left_behind
    } else {
        run.left_behind + run.vanished
    };
    lemma_remove(
        Run { doomed: unowned(list, run.live), removed: Seq::empty(), ..run },
        Batch::Stale,
    );
}

proof fn lemma_done(run: Run, stale: Option<Seq<char>>, written: bool)
    ensures
        follows(run, run.page_done(stale, written)),
        run.page_done(stale, written).publication.log.contains(
            Event::DocumentWriteCompleted(announced_at(run, run.queue[0])),
        ),
{
    reveal(Run::page_done);
    reveal(Run::left);
    reveal(Run::noted);
    let path = announced_at(run, run.queue[0]);
    let event = Event::DocumentWriteCompleted(path);
    lemma_pushed(run.publication.log, event);
    let done = Run { publication: run.publication.write_completed(path), ..run }.left(
        stale,
    ).noted(written);
    let mid = Run { queue: done.queue.drop_first(), ..done };
    lemma_page(mid);
    lemma_prefix_of_prefix(
        run.publication.log,
        mid.publication.log,
        mid.to_page().publication.log,
    );
    lemma_prefix_contains(mid.publication.log, mid.to_page().publication.log, event);
}

proof fn lemma_follows_early<E>(run: Run, known: Written, answer: DevAnswer<E>)
    requires
        answers(run.wait, answer),
        error_of(answer) is None,
        answer is ClientScripts || answer is Islands || answer is Reloaded,
    ensures
        follows(run, advanced(run, known, answer)),
{
    match answer {
        DevAnswer::ClientScripts(Ok(changed)) => {
            reveal(Run::after_client_scripts);
            lemma_early(
                Run {
                    outcome: Outcome { client_scripts_changed: changed, ..run.outcome },
                    ..run
                },
            );
        },
        DevAnswer::Islands(Ok(info)) => {
            reveal(Run::after_islands);
            lemma_early(run);
            if let Some(i) = info {
                lemma_early(
                    Run {
                        outcome: Outcome {
                            islands_changed: i.changed,
                            islands_bundle: Some(i),
                            ..run.outcome
                        },
                        ..run
                    },
                );
            }
        },
        DevAnswer::Reloaded(Ok(refresh)) => {
            reveal(Run::after_refresh);
            match refresh {
                RefreshOutcome::Skipped => {
                    lemma_early(run);
                    lemma_early(Run { refresh_skipped: true, ..run });
                },
                RefreshOutcome::Refreshed { vanished, changed_sources } => {
                    if run.wait == Wait::SsrReload {
                        lemma_remove(
                            Run { doomed: texts(vanished@), removed: Seq::empty(), ..run },
                            Batch::SsrVanished,
                        );
                    } else {
                        lemma_early(
                            Run {
                                narrowing: if vanished@.len() > 0 || changed_sources@.len() > 0 {
                                    unsafe_hint(run.narrowing)
                                } else {
                                    run.narrowing
                                },
                                vanished: run.vanished + texts(vanished@),
                                ..run
                            },
                        );
                    }
                },
            }
        },
        _ => {},
    }
}

proof fn lemma_follows_pages<E>(run: Run, known: Written, answer: DevAnswer<E>)
    requires
        answers(run.wait, answer),
        error_of(answer) is None,
        announced(run),
        answer is Rendered || (answer is Validated || answer is Written) && run.queue.len() > 0,
    ensures
        follows(run, advanced(run, known, answer)),
        placed_at(run, known, answer) is Some ==> advanced(
            run,
            known,
            answer,
        ).publication.log.contains(
            Event::DocumentWriteCompleted(announced_at(run, run.queue[0])),
        ),
{
    match answer {
        DevAnswer::Rendered(Ok(rendered)) => {
            reveal(Run::after_rendered);
            lemma_page(
                Run {
                    outcome: Outcome { pages_rendered: rendered@.len(), ..run.outcome },
                    queue: rendered@,
                    ..run
                },
            );
        },
        DevAnswer::Validated(Ok(dest)) => {
            reveal(Run::after_validated);
            let owning = Run { live: run.live.push(dest@), ..run };
            lemma_done(owning, known.moved_from(run.queue[0].page.key(), dest@), false);
        },
        _ => {
            reveal(Run::after_written);
            lemma_done(run, run.wait->Write_stale, true);
        },
    }
}

proof fn lemma_follows_removal(run: Run, gone: bool)
    requires
        run.wait is Remove,
        run.doomed.len() > 0,
    ensures
        ({
            let next = run.after_removed(gone);
            let removed = if gone {
                run.removed.push(run.doomed[0])
            } else {
                run.removed
            };
            &&& follows(run, next)
            &&& removed.len() > 0 ==> next.wait is Remove && next.removed == removed
                || next.publication.log.contains(Event::DocumentPathsRemoved(removed))
        }),
{
    reveal(Run::after_removed);
    let mid = Run {
        removed: if gone {
            run.removed.push(run.doomed[0])
        } else {
            run.removed
        },
        outcome: Outcome {
            pages_pruned: run.outcome.pages_pruned.push(run.doomed[0]),
            ..run.outcome
        },
        doomed: run.doomed.drop_first(),
        ..run
    };
    lemma_remove(mid, run.wait->Remove_0);
}

proof fn lemma_follows_late<E>(run: Run, known: Written, answer: DevAnswer<E>)
    requires
        answers(run.wait, answer),
        error_of(answer) is None,
        stage(run.wait) > 8,
        announced(run),
        run.wait is Fallbacks ==> run.relevant(),
    ensures
        follows(run, advanced(run, known, answer)),
{
    match answer {
        DevAnswer::Fallbacks(paths) => {
            reveal(Run::after_fallbacks);
            let event = Event::SnapshotLazyFallbacks(texts(paths@));
            let noted = Run { publication: run.publication.emitted(event), ..run };
            lemma_pushed(run.publication.log, event);
            lemma_commits(noted);
            lemma_prefix_of_prefix(
                run.publication.log,
                noted.publication.log,
                noted.committed().publication.log,
            );
        },
        DevAnswer::Css(Ok(changed)) => {
            reveal(Run::after_css);
            lemma_settled(
                Run { outcome: Outcome { css_changed: changed, ..run.outcome }, ..run },
            );
        },
        DevAnswer::Stale(paths) => {
            reveal(Run::after_stale);
            lemma_settled(
                Run { outcome: Outcome { pages_stale: texts(paths@), ..run.outcome }, ..run },
            );
        },
        DevAnswer::Ssr(published) => {
            reveal(Run::after_ssr);
            lemma_settled(
                Run { outcome: Outcome { ssr_routes_published: published, ..run.outcome }, ..run },
            );
        },
        _ => {
            reveal(Run::after_dynamic);
        },
    }
}

proof fn lemma_follows<E>(run: Run, known: Written, answer: DevAnswer<E>)
    requires
        run.orderly(),
        answers(run.wait, answer),
        error_of(answer) is None,
        announced(run),
    ensures
        follows(run, advanced(run, known, answer)),
        placed_at(run, known, answer) is Some ==> advanced(
            run,
            known,
            answer,
        ).publication.log.contains(
            Event::DocumentWriteCompleted(announced_at(run, run.queue[0])),
        ),
{
    match answer {
        DevAnswer::ClientScripts(_) | DevAnswer::Islands(_) | DevAnswer::Reloaded(_) => {
            lemma_follows_early(run, known, answer);
        },
        DevAnswer::Rendered(_) | DevAnswer::Validated(_) | DevAnswer::Written(_) => {
            lemma_follows_pages(run, known, answer);
        },
        DevAnswer::Removed(gone) => {
            lemma_follows_removal(run, gone);
        },
        _ => {
            lemma_follows_late(run, known, answer);
        },
    }
}

/// What a tick announces only grows. A document is announced before it changes,
/// a page before it is looked at and a file before it is deleted. Once the tick
/// is past its documents, what it publishes is committed: as documents where it
/// renders pages, and as entries where it renders none.
pub proof fn lemma_changes_are_announced<E>(
    plan: Plan,
    pages: Seq<PageId>,
    caps: DevCapabilities,
    dist_root: Seq<char>,
    known: Written,
    list: Seq<DevAnswer<E>>,
)
    requires
        plan.pages is Specific,
        goes(opened(plan, pages, caps, dist_root).begin(), known, list),
    ensures
        ({
            let run = run_after(opened(plan, pages, caps, dist_root).begin(), known, list).0;
            let log = run.publication.log;
            let publishes = pages.len() > 0 || plan.rerun_islands || plan.rerun_client_scripts
                || plan.ssr_reload_needed;
            &&& publishes ==> log.len() > 0 && log[0] == Event::Begin
            &&& run.wait is Validate || run.wait is Write ==> log.contains(
                Event::DocumentWriteStarted(join_text(dist_root, run.queue[0].output_path@)),
            )
            &&& run.wait is Remove ==> log.contains(Event::DocumentWriteStarted(run.doomed[0]))
            &&& run.wait is Css || run.wait is Stale || run.wait is Ssr || run.wait is Dynamic
                || run.wait is Finished ==> {
                &&& pages.len() > 0 ==> log.contains(Event::CommitPublished)
                &&& pages.len() == 0 && publishes ==> log.contains(Event::CommitEntriesOnly)
            }
            &&& list.len() > 0 ==> run_after(
                opened(plan, pages, caps, dist_root).begin(),
                known,
                list.drop_last(),
            ).0.publication.log.is_prefix_of(log)
        }),
    decreases list.len(),
{
    let start = opened(plan, pages, caps, dist_root);
    lemma_announced(plan, pages, caps, dist_root, known, list);
    lemma_no_reload_yet(plan, pages, caps, dist_root, known, list);
    if list.len() > 0 {
        let init = list.drop_last();
        lemma_prefix(start.begin(), known, list);
        lemma_announced(plan, pages, caps, dist_root, known, init);
        lemma_no_reload_yet(plan, pages, caps, dist_root, known, init);
        let (run, k) = run_after(start.begin(), known, init);
        lemma_follows(run, k, list.last());
    }
}

proof fn lemma_announced<E>(
    plan: Plan,
    pages: Seq<PageId>,
    caps: DevCapabilities,
    dist_root: Seq<char>,
    known: Written,
    list: Seq<DevAnswer<E>>,
)
    requires
        plan.pages is Specific,
        goes(opened(plan, pages, caps, dist_root).begin(), known, list),
    ensures
        announced(run_after(opened(plan, pages, caps, dist_root).begin(), known, list).0),
        waits_fit(run_after(opened(plan, pages, caps, dist_root).begin(), known, list).0),
    decreases list.len(),
{
    let start = opened(plan, pages, caps, dist_root);
    if list.len() == 0 {
        lemma_early(start);
        lemma_begins(start);
    } else {
        let init = list.drop_last();
        lemma_prefix(start.begin(), known, list);
        lemma_announced(plan, pages, caps, dist_root, known, init);
        lemma_no_reload_yet(plan, pages, caps, dist_root, known, init);
        let (run, k) = run_after(start.begin(), known, init);
        lemma_follows(run, k, list.last());
        lemma_steps(run, k, list.last());
    }
}

/// The path is announced to be gone.
pub open spec fn announced_gone(log: Seq<Event>, path: Seq<char>) -> bool {
    exists|e: int|
        0 <= e < log.len() && (#[trigger] log[e] matches Event::DocumentPathsRemoved(paths)
            && paths.contains(path))
}

proof fn lemma_gone_event(log: Seq<Event>, paths: Seq<Seq<char>>, path: Seq<char>)
    requires
        log.contains(Event::DocumentPathsRemoved(paths)),
        paths.contains(path),
    ensures
        announced_gone(log, path),
{
    let e = choose|e: int| 0 <= e < log.len() && log[e] == Event::DocumentPathsRemoved(paths);
    assert(log[e] is DocumentPathsRemoved);
}

proof fn lemma_gone_stays(a: Seq<Event>, b: Seq<Event>, path: Seq<char>)
    requires
        a.is_prefix_of(b),
        announced_gone(a, path),
    ensures
        announced_gone(b, path),
{
    let e = choose|e: int|
        0 <= e < a.len() && (#[trigger] a[e] matches Event::DocumentPathsRemoved(paths)
            && paths.contains(path));
    assert(b[e] == a[e]);
}

/// A file that is gone is announced, or will be when its batch is over.
spec fn noted(run: Run, path: Seq<char>) -> bool {
    run.wait is Remove && run.removed.contains(path) || announced_gone(
        run.publication.log,
        path,
    )
}

proof fn lemma_noted_stays<E>(run: Run, known: Written, answer: DevAnswer<E>, path: Seq<char>)
    requires
        run.orderly(),
        answers(run.wait, answer),
        error_of(answer) is None,
        announced(run),
        noted(run, path) || answer == DevAnswer::<E>::Removed(true) && run.doomed[0] == path,
    ensures
        noted(advanced(run, known, answer), path),
{
    let next = advanced(run, known, answer);
    lemma_follows(run, known, answer);
    if announced_gone(run.publication.log, path) {
        lemma_gone_stays(run.publication.log, next.publication.log, path);
    } else if let DevAnswer::Removed(gone) = answer {
        lemma_follows_removal(run, gone);
        let removed = if gone {
            run.removed.push(run.doomed[0])
        } else {
            run.removed
        };
        assert(removed.contains(path)) by {
            if run.removed.contains(path) {
                let i = choose|i: int| 0 <= i < run.removed.len() && run.removed[i] == path;
                assert(removed[i] == path);
            } else {
                assert(removed[run.removed.len() as int] == path);
            }
        }
        if next.publication.log.contains(Event::DocumentPathsRemoved(removed)) {
            lemma_gone_event(next.publication.log, removed, path);
        }
    }
}

proof fn lemma_noted<E>(
    plan: Plan,
    pages: Seq<PageId>,
    caps: DevCapabilities,
    dist_root: Seq<char>,
    known: Written,
    list: Seq<DevAnswer<E>>,
    i: int,
)
    requires
        plan.pages is Specific,
        goes(opened(plan, pages, caps, dist_root).begin(), known, list),
        0 <= i < list.len(),
        list[i] == DevAnswer::<E>::Removed(true),
    ensures
        noted(
            run_after(opened(plan, pages, caps, dist_root).begin(), known, list).0,
            run_after(
                opened(plan, pages, caps, dist_root).begin(),
                known,
                list.take(i),
            ).0.doomed[0],
        ),
    decreases list.len(),
{
    let first = opened(plan, pages, caps, dist_root).begin();
    let init = list.drop_last();
    let path = run_after(first, known, list.take(i)).0.doomed[0];
    lemma_prefix(first, known, list);
    lemma_announced(plan, pages, caps, dist_root, known, init);
    lemma_no_reload_yet(plan, pages, caps, dist_root, known, init);
    let (run, k) = run_after(first, known, init);
    if i < init.len() {
        assert(init.take(i) =~= list.take(i));
        assert(init[i] == list[i]);
        lemma_noted(plan, pages, caps, dist_root, known, init, i);
    } else {
        assert(list.take(i) =~= init);
    }
    lemma_noted_stays(run, k, list.last(), path);
}

/// Every file that a tick has deleted is announced to be gone when the tick has
/// come to its end.
pub proof fn lemma_deletions_are_announced<E>(
    plan: Plan,
    pages: Seq<PageId>,
    caps: DevCapabilities,
    dist_root: Seq<char>,
    known: Written,
    list: Seq<DevAnswer<E>>,
    i: int,
)
    requires
        plan.pages is Specific,
        goes(opened(plan, pages, caps, dist_root).begin(), known, list),
        run_after(opened(plan, pages, caps, dist_root).begin(), known, list).0.wait is Finished,
        0 <= i < list.len(),
        list[i] == DevAnswer::<E>::Removed(true),
    ensures
        announced_gone(
            run_after(
                opened(plan, pages, caps, dist_root).begin(),
                known,
                list,
            ).0.publication.log,
            run_after(
                opened(plan, pages, caps, dist_root).begin(),
                known,
                list.take(i),
            ).0.doomed[0],
        ),
{
    lemma_noted(plan, pages, caps, dist_root, known, list, i);
}

/// The page is announced before it is looked at and once it is in place.
spec fn page_announced(run: Run, page: RenderedPage) -> bool {
    let log = run.publication.log;
    &&& log.contains(Event::DocumentWriteStarted(announced_at(run, page)))
    &&& log.contains(Event::DocumentWriteCompleted(announced_at(run, page)))
}

proof fn lemma_page_announced_stays(run: Run, next: Run, page: RenderedPage)
    requires
        follows(run, next),
        page_announced(run, page),
    ensures
        page_announced(next, page),
{
    let path = announced_at(run, page);
    lemma_prefix_contains(
        run.publication.log,
        next.publication.log,
        Event::DocumentWriteStarted(path),
    );
    lemma_prefix_contains(
        run.publication.log,
        next.publication.log,
        Event::DocumentWriteCompleted(path),
    );
}

/// Every rendered page is announced before it is looked at, and again once it is
/// in place, by the path that it wants to have below the dist root.
pub proof fn lemma_pages_are_announced<E>(
    plan: Plan,
    pages: Seq<PageId>,
    caps: DevCapabilities,
    dist_root: Seq<char>,
    known: Written,
    list: Seq<DevAnswer<E>>,
    i: int,
    p: int,
)
    requires
        plan.pages is Specific,
        goes(opened(plan, pages, caps, dist_root).begin(), known, list),
        0 <= i < list.len(),
        list[i] is Rendered,
        0 <= p < list[i]->Rendered_0->Ok_0@.len(),
    ensures
        ({
            let run = run_after(opened(plan, pages, caps, dist_root).begin(), known, list).0;
            let rendered = list[i]->Rendered_0->Ok_0@;
            let path = join_text(dist_root, rendered[p].output_path@);
            &&& run.queue.len() <= rendered.len()
            &&& run.queue == rendered.skip(rendered.len() - run.queue.len())
            &&& p < rendered.len() - run.queue.len() ==> run.publication.log.contains(
                Event::DocumentWriteStarted(path),
            ) && run.publication.log.contains(Event::DocumentWriteCompleted(path))
        }),
    decreases list.len(),
{
    let first = opened(plan, pages, caps, dist_root).begin();
    let init = list.drop_last();
    let answer = list.last();
    lemma_prefix(first, known, list);
    lemma_announced(plan, pages, caps, dist_root, known, init);
    lemma_no_reload_yet(plan, pages, caps, dist_root, known, init);
    let (run, k) = run_after(first, known, init);
    let next = advanced(run, k, answer);
    assert(run_after(first, known, list).0 == next);
    lemma_follows(run, k, answer);
    lemma_steps(run, k, answer);
    let rendered = list[i]->Rendered_0->Ok_0@;
    if i < init.len() {
        assert(init[i] == list[i]);
        lemma_pages_are_announced(plan, pages, caps, dist_root, known, init, i, p);
        crate::pipeline::order_laws::lemma_renders_once(
            plan,
            pages,
            caps,
            dist_root,
            known,
            list,
            i,
        );
        assert(!(answer is Rendered));
        let done = rendered.len() - run.queue.len();
        if placed_at(run, k, answer) is Some {
            assert(run.queue.len() > 0);
            assert(run.queue[0] == rendered[done]);
            assert(run.queue.drop_first() =~= rendered.skip(done + 1));
            if p == done {
                let path = announced_at(run, run.queue[0]);
                lemma_prefix_contains(
                    run.publication.log,
                    next.publication.log,
                    Event::DocumentWriteStarted(path),
                );
            }
        }
        if p < done {
            lemma_page_announced_stays(run, next, rendered[p]);
        }
    } else {
        assert(rendered.skip(0) =~= rendered);
    }
}

/// The answer with the stale documents that have a fallback on disk is passed on
/// as it came.
pub proof fn lemma_fallbacks_are_announced<E>(
    plan: Plan,
    pages: Seq<PageId>,
    caps: DevCapabilities,
    dist_root: Seq<char>,
    known: Written,
    list: Seq<DevAnswer<E>>,
    i: int,
)
    requires
        plan.pages is Specific,
        goes(opened(plan, pages, caps, dist_root).begin(), known, list),
        0 <= i < list.len(),
        list[i] is Fallbacks,
    ensures
        run_after(
            opened(plan, pages, caps, dist_root).begin(),
            known,
            list,
        ).0.publication.log.contains(
            Event::SnapshotLazyFallbacks(texts(list[i]->Fallbacks_0@)),
        ),
    decreases list.len(),
{
    let first = opened(plan, pages, caps, dist_root).begin();
    let init = list.drop_last();
    lemma_prefix(first, known, list);
    lemma_announced(plan, pages, caps, dist_root, known, init);
    lemma_no_reload_yet(plan, pages, caps, dist_root, known, init);
    let (run, k) = run_after(first, known, init);
    let next = advanced(run, k, list.last());
    let event = Event::SnapshotLazyFallbacks(texts(list[i]->Fallbacks_0@));
    lemma_follows(run, k, list.last());
    if i < init.len() {
        assert(init[i] == list[i]);
        lemma_fallbacks_are_announced(plan, pages, caps, dist_root, known, init, i);
        lemma_prefix_contains(run.publication.log, next.publication.log, event);
    } else {
        reveal(Run::after_fallbacks);
        let noted = Run { publication: run.publication.emitted(event), ..run };
        lemma_pushed(run.publication.log, event);
        lemma_commits(noted);
        lemma_prefix_contains(noted.publication.log, next.publication.log, event);
    }
}

/// `next` is where `run` comes to without announcing anything as gone, and with no
/// batch of deletions begun but a new one.
spec fn quietly(run: Run, next: Run) -> bool {
    &&& forall|path: Seq<char>| #[trigger]
        announced_gone(next.publication.log, path) ==> announced_gone(run.publication.log, path)
    &&& next.wait is Remove ==> next.removed.len() == 0
}

proof fn lemma_quiet_push(log: Seq<Event>, event: Event, path: Seq<char>)
    requires
        !(event is DocumentPathsRemoved),
        announced_gone(log.push(event), path),
    ensures
        announced_gone(log, path),
{
    let all = log.push(event);
    let e = choose|e: int|
        0 <= e < all.len() && (#[trigger] all[e] matches Event::DocumentPathsRemoved(paths)
            && paths.contains(path));
    assert(log[e] == all[e]);
}

proof fn lemma_quiet_start(run: Run, target: Seq<char>)
    ensures
        forall|path: Seq<char>| #[trigger]
            announced_gone(run.publication.write_started(target).log, path) ==> announced_gone(
                run.publication.log,
                path,
            ),
        forall|path: Seq<char>| #[trigger]
            announced_gone(run.publication.mutation_started().log, path) ==> announced_gone(
                run.publication.log,
                path,
            ),
{
    let p = run.publication;
    let m = p.mutation_started();
    assert forall|path: Seq<char>| #[trigger] announced_gone(m.log, path) implies announced_gone(
        p.log,
        path,
    ) by {
        if m.log != p.log {
            lemma_quiet_push(p.log, Event::DocumentMutationStarted, path);
        }
    }
    assert forall|path: Seq<char>| #[trigger]
        announced_gone(p.write_started(target).log, path) implies announced_gone(p.log, path) by {
        lemma_quiet_push(m.log, Event::DocumentWriteStarted(target), path);
        assert(announced_gone(m.log, path));
    }
}

proof fn lemma_late_quietly(run: Run)
    ensures
        quietly(run, run.to_dynamic_probe()),
        quietly(run, run.to_ssr_probe()),
        quietly(run, run.to_stale_probe()),
        quietly(run, run.to_css()),
        quietly(run, run.committed()),
        quietly(run, run.to_commit()),
        quietly(run, run.to_planned()),
{
    reveal(Run::to_css);
    reveal(Run::to_stale_probe);
    reveal(Run::to_ssr_probe);
    reveal(Run::to_dynamic_probe);
    reveal(Run::committed);
    reveal(Run::to_commit);
    reveal(Run::to_planned);
    let event = commit(run);
    assert forall|path: Seq<char>| #[trigger]
        announced_gone(run.publication.committed(event).log, path) implies announced_gone(
        run.publication.log,
        path,
    ) by {
        lemma_quiet_push(run.publication.log, event, path);
    }
    if run.setup.prune_paths.len() > 0 {
        lemma_quiet_start(run, run.setup.prune_paths[0]);
    }
}

proof fn lemma_early_quietly(run: Run)
    ensures
        quietly(run, run.to_render()),
        quietly(run, run.to_reload()),
        quietly(run, run.to_ssr_reload()),
        quietly(run, run.to_islands()),
        quietly(run, run.begin()),
{
    reveal(Run::to_render);
    reveal(Run::to_reload);
    reveal(Run::to_ssr_reload);
    reveal(Run::to_islands);
    reveal(Run::begin);
    lemma_late_quietly(run);
    lemma_quiet_start(run, Seq::empty());
}

/// What is announced as gone was, or is of this batch.
spec fn batchwise(run: Run, next: Run) -> bool {
    &&& forall|path: Seq<char>| #[trigger]
        announced_gone(next.publication.log, path) ==> announced_gone(run.publication.log, path)
            || run.removed.contains(path)
    &&& next.wait is Remove ==> next.removed == run.removed || next.removed.len() == 0
}

proof fn lemma_remove_batchwise(run: Run, batch: Batch)
    ensures
        batchwise(run, run.to_remove(batch)),
{
    reveal(Run::to_remove);
    let next = run.to_remove(batch);
    if run.doomed.len() > 0 {
        lemma_quiet_start(run, run.doomed[0]);
    } else {
        let done = Run { publication: run.publication.paths_removed(run.removed), ..run };
        lemma_late_quietly(done);
        lemma_early_quietly(done);
        assert forall|path: Seq<char>| #[trigger]
            announced_gone(next.publication.log, path) implies announced_gone(
            run.publication.log,
            path,
        ) || run.removed.contains(path) by {
            assert(announced_gone(done.publication.log, path));
            let all = done.publication.log;
            let e = choose|e: int|
                0 <= e < all.len() && (#[trigger] all[e] matches Event::DocumentPathsRemoved(
                    paths,
                ) && paths.contains(path));
            if e < run.publication.log.len() {
                assert(run.publication.log[e] == all[e]);
            }
        }
    }
}

proof fn lemma_page_quietly(run: Run)
    ensures
        quietly(run, run.to_page()),
{
    reveal(Run::to_page);
    reveal(Run::to_stale);
    if run.queue.len() > 0 {
        lemma_quiet_start(run, announced_at(run, run.queue[0]));
    }
    let list = if run.refresh_skipped {
        run.left_behind
    } else {
        run.left_behind + run.vanished
    };
    lemma_remove_batchwise(
        Run { doomed: unowned(list, run.live), removed: Seq::empty(), ..run },
        Batch::Stale,
    );
}

proof fn lemma_done_quietly(run: Run, stale: Option<Seq<char>>, written: bool)
    ensures
        quietly(run, run.page_done(stale, written)),
{
    reveal(Run::page_done);
    reveal(Run::left);
    reveal(Run::noted);
    let path = announced_at(run, run.queue[0]);
    let done = Run { publication: run.publication.write_completed(path), ..run }.left(
        stale,
    ).noted(written);
    let mid = Run { queue: done.queue.drop_first(), ..done };
    lemma_page_quietly(mid);
    assert forall|gone: Seq<char>| #[trigger]
        announced_gone(mid.publication.log, gone) implies announced_gone(
        run.publication.log,
        gone,
    ) by {
        lemma_quiet_push(run.publication.log, Event::DocumentWriteCompleted(path), gone);
    }
}

proof fn lemma_step_quietly<E>(run: Run, known: Written, answer: DevAnswer<E>)
    requires
        answers(run.wait, answer),
        error_of(answer) is None,
        !(answer is Removed),
        answer is Validated ==> run.wait is Validate,
    ensures
        quietly(run, advanced(run, known, answer)),
{
    match answer {
        DevAnswer::ClientScripts(Ok(changed)) => {
            reveal(Run::after_client_scripts);
            lemma_early_quietly(
                Run {
                    outcome: Outcome { client_scripts_changed: changed, ..run.outcome },
                    ..run
                },
            );
        },
        DevAnswer::Islands(Ok(info)) => {
            reveal(Run::after_islands);
            lemma_early_quietly(run);
            if let Some(i) = info {
                lemma_early_quietly(
                    Run {
                        outcome: Outcome {
                            islands_changed: i.changed,
                            islands_bundle: Some(i),
                            ..run.outcome
                        },
                        ..run
                    },
                );
            }
        },
        DevAnswer::Reloaded(Ok(refresh)) => {
            reveal(Run::after_refresh);
            match refresh {
                RefreshOutcome::Skipped => {
                    lemma_early_quietly(run);
                    lemma_early_quietly(Run { refresh_skipped: true, ..run });
                },
                RefreshOutcome::Refreshed { vanished, changed_sources } => {
                    if run.wait == Wait::SsrReload {
                        lemma_remove_batchwise(
                            Run { doomed: texts(vanished@), removed: Seq::empty(), ..run },
                            Batch::SsrVanished,
                        );
                    } else {
                        lemma_early_quietly(
                            Run {
                                narrowing: if vanished@.len() > 0 || changed_sources@.len() > 0 {
                                    unsafe_hint(run.narrowing)
                                } else {
                                    run.narrowing
                                },
                                vanished: run.vanished + texts(vanished@),
                                ..run
                            },
                        );
                    }
                },
            }
        },
        DevAnswer::Rendered(Ok(rendered)) => {
            reveal(Run::after_rendered);
            lemma_page_quietly(
                Run {
                    outcome: Outcome { pages_rendered: rendered@.len(), ..run.outcome },
                    queue: rendered@,
                    ..run
                },
            );
        },
        DevAnswer::Validated(Ok(dest)) => {
            reveal(Run::after_validated);
            let owning = Run { live: run.live.push(dest@), ..run };
            lemma_done_quietly(owning, known.moved_from(run.queue[0].page.key(), dest@), false);
        },
        DevAnswer::Written(_) => {
            reveal(Run::after_written);
            lemma_done_quietly(run, run.wait->Write_stale, true);
        },
        DevAnswer::Fallbacks(paths) => {
            reveal(Run::after_fallbacks);
            let event = Event::SnapshotLazyFallbacks(texts(paths@));
            let noted = Run { publication: run.publication.emitted(event), ..run };
            lemma_late_quietly(noted);
            assert forall|gone: Seq<char>| #[trigger]
                announced_gone(noted.publication.log, gone) implies announced_gone(
                run.publication.log,
                gone,
            ) by {
                lemma_quiet_push(run.publication.log, event, gone);
            }
        },
        DevAnswer::Css(Ok(changed)) => {
            reveal(Run::after_css);
            lemma_late_quietly(
                Run { outcome: Outcome { css_changed: changed, ..run.outcome }, ..run },
            );
        },
        DevAnswer::Stale(paths) => {
            reveal(Run::after_stale);
            lemma_late_quietly(
                Run { outcome: Outcome { pages_stale: texts(paths@), ..run.outcome }, ..run },
            );
        },
        DevAnswer::Ssr(published) => {
            reveal(Run::after_ssr);
            lemma_late_quietly(
                Run { outcome: Outcome { ssr_routes_published: published, ..run.outcome }, ..run },
            );
        },
        _ => {
            reveal(Run::after_dynamic);
        },
    }
}

/// One of the deletions of the tick has made the file go.
pub open spec fn deleted_in<E>(
    first: Run,
    known: Written,
    list: Seq<DevAnswer<E>>,
    path: Seq<char>,
) -> bool {
    exists|i: int|
        0 <= i < list.len() && list[i] == DevAnswer::<E>::Removed(true) && run_after(
            first,
            known,
            #[trigger] list.take(i),
        ).0.doomed[0] == path
}

proof fn lemma_deleted_stays<E>(
    first: Run,
    known: Written,
    list: Seq<DevAnswer<E>>,
    path: Seq<char>,
)
    requires
        list.len() > 0,
        deleted_in(first, known, list.drop_last(), path) || list.last()
            == DevAnswer::<E>::Removed(true) && run_after(
            first,
            known,
            list.drop_last(),
        ).0.doomed[0] == path,
    ensures
        deleted_in(first, known, list, path),
{
    let init = list.drop_last();
    if deleted_in(first, known, init, path) {
        let i = choose|i: int|
            0 <= i < init.len() && init[i] == DevAnswer::<E>::Removed(true) && run_after(
                first,
                known,
                #[trigger] init.take(i),
            ).0.doomed[0] == path;
        assert(init.take(i) =~= list.take(i));
        assert(list[i] == init[i]);
    } else {
        let i = list.len() - 1;
        assert(list.take(i) =~= init);
        assert(list[i] == list.last());
    }
}

/// Nothing is announced as gone but what a deletion of the tick has made go.
pub proof fn lemma_only_deletions_are_announced<E>(
    plan: Plan,
    pages: Seq<PageId>,
    caps: DevCapabilities,
    dist_root: Seq<char>,
    known: Written,
    list: Seq<DevAnswer<E>>,
    path: Seq<char>,
)
    requires
        plan.pages is Specific,
        goes(opened(plan, pages, caps, dist_root).begin(), known, list),
        ({
            let run = run_after(opened(plan, pages, caps, dist_root).begin(), known, list).0;
            announced_gone(run.publication.log, path) || run.wait is Remove
                && run.removed.contains(path)
        }),
    ensures
        deleted_in(opened(plan, pages, caps, dist_root).begin(), known, list, path),
    decreases list.len(),
{
    let start = opened(plan, pages, caps, dist_root);
    let first = start.begin();
    if list.len() == 0 {
        lemma_early_quietly(start);
        assert(announced_gone(start.publication.log, path));
        let log = start.publication.log;
        let e = choose|e: int|
            0 <= e < log.len() && (#[trigger] log[e] matches Event::DocumentPathsRemoved(paths)
                && paths.contains(path));
        assert(log[e] == Event::Begin);
    } else {
        let init = list.drop_last();
        let answer = list.last();
        lemma_prefix(first, known, list);
        lemma_no_reload_yet(plan, pages, caps, dist_root, known, init);
        let (run, k) = run_after(first, known, init);
        let next = advanced(run, k, answer);
        assert(run_after(first, known, list).0 == next);
        if announced_gone(run.publication.log, path) || run.wait is Remove && run.removed.contains(
            path,
        ) {
            lemma_only_deletions_are_announced(plan, pages, caps, dist_root, known, init, path);
        } else if let DevAnswer::Removed(gone) = answer {
            reveal(Run::after_removed);
            let mid = Run {
                removed: if gone {
                    run.removed.push(run.doomed[0])
                } else {
                    run.removed
                },
                outcome: Outcome {
                    pages_pruned: run.outcome.pages_pruned.push(run.doomed[0]),
                    ..run.outcome
                },
                doomed: run.doomed.drop_first(),
                ..run
            };
            lemma_remove_batchwise(mid, run.wait->Remove_0);
            assert(mid.removed.contains(path));
            let i = choose|i: int| 0 <= i < mid.removed.len() && mid.removed[i] == path;
            if i < run.removed.len() {
                assert(run.removed[i] == path);
                assert(run.removed.contains(path));
            }
            assert(gone && run.doomed[0] == path);
        } else {
            lemma_step_quietly(run, k, answer);
        }
        lemma_deleted_stays(first, known, list, path);
    }
}

} // verus!
