//! What one answer changes of a dev tick.

use vstd::prelude::*;

use crate::path::join_text;
use crate::pipeline::cache::Written;
use crate::pipeline::dev::{
    advanced, answers, bytes_of, error_of, unowned, unsafe_hint, Batch, DevAnswer, Run, Wait,
};
use crate::pipeline::dev_laws::stage;
use crate::pipeline::publication::Event;
use crate::pipeline::{Outcome, RefreshOutcome};
use crate::plan::texts;

verus! {

/// `next` is where `run` comes to without any answer in between, with the same
/// pages and the same work done.
spec fn keeps(run: Run, next: Run) -> bool {
    &&& next.setup == run.setup
    &&& next.live == run.live
    &&& next.left_behind == run.left_behind
    &&& next.vanished == run.vanished
    &&& next.refresh_skipped == run.refresh_skipped
    &&& next.queue == run.queue
    &&& next.outcome.pages_rendered == run.outcome.pages_rendered
    &&& next.outcome.pages_written == run.outcome.pages_written
    &&& next.outcome.pages_pruned == run.outcome.pages_pruned
    &&& waits_fit(next)
    &&& !(next.wait is Write)
}

/// The tick waits for a reload only where the renderer is not fresh, and for the
/// plan's own deletions only where there are any.
pub open spec fn waits_fit(run: Run) -> bool {
    &&& run.wait is Reload ==> !run.setup.renderer_fresh
    &&& run.wait == Wait::Remove(Batch::Planned) ==> run.setup.prune_paths.len() > 0
}

/// `next` is at what follows the outputs that pages left behind.
spec fn late(run: Run, next: Run) -> bool {
    keeps(run, next) && stage(next.wait) > 7
}

/// The tick is at what comes before the pages, or has none.
pub open spec fn before_pages(run: Run) -> bool {
    stage(run.wait) < 6 || !run.has_documents() && stage(run.wait) > 7
}

/// `next` is at what comes before the pages, or is a tick without pages.
spec fn early(run: Run, next: Run) -> bool {
    keeps(run, next) && before_pages(next) && next.wait != Wait::Remove(Batch::SsrVanished)
}

proof fn lemma_late(run: Run)
    ensures
        late(run, run.to_css()),
        late(run, run.to_stale_probe()),
        late(run, run.to_ssr_probe()),
        late(run, run.to_dynamic_probe()),
        late(run, run.committed()),
        late(run, run.to_commit()),
        late(run, run.to_planned()),
{
    reveal(Run::to_css);
    reveal(Run::to_stale_probe);
    reveal(Run::to_ssr_probe);
    reveal(Run::to_dynamic_probe);
    reveal(Run::committed);
    reveal(Run::to_commit);
    reveal(Run::to_planned);
}

proof fn lemma_early(run: Run)
    ensures
        early(run, run.to_render()),
        early(run, run.to_reload()),
        early(run, run.to_ssr_reload()),
        early(run, run.to_islands()),
        early(run, run.begin()),
{
    reveal(Run::to_render);
    reveal(Run::to_reload);
    reveal(Run::to_ssr_reload);
    reveal(Run::to_islands);
    reveal(Run::begin);
    lemma_late(run);
}

/// Beginning a tick does nothing of it.
pub proof fn lemma_begins(run: Run)
    ensures
        ({
            let next = run.begin();
            &&& next.setup == run.setup
            &&& next.live == run.live
            &&& next.left_behind == run.left_behind
            &&& next.vanished == run.vanished
            &&& next.refresh_skipped == run.refresh_skipped
            &&& next.queue == run.queue
            &&& next.outcome.pages_rendered == run.outcome.pages_rendered
            &&& next.outcome.pages_written == run.outcome.pages_written
            &&& next.outcome.pages_pruned == run.outcome.pages_pruned
            &&& before_pages(next)
            &&& waits_fit(next)
            &&& !(next.wait is Write)
            &&& next.wait != Wait::Remove(Batch::SsrVanished)
        }),
{
    lemma_early(run);
}

/// The outputs that may have to go once the pages are written.
pub open spec fn leavings(run: Run) -> Seq<Seq<char>> {
    if run.refresh_skipped {
        run.left_behind
    } else {
        run.left_behind + run.vanished
    }
}

/// The tick is at the next page of its queue, or at what follows the last one:
/// the outputs that nobody owns any more, or what follows them.
pub open spec fn at_pages(run: Run) -> bool {
    if run.queue.len() > 0 {
        run.wait is Validate
    } else {
        let list = unowned(leavings(run), run.live);
        if list.len() > 0 {
            run.wait == Wait::Remove(Batch::Stale) && run.doomed == list
        } else {
            stage(run.wait) > 7
        }
    }
}

proof fn lemma_to_page(run: Run)
    ensures
        keeps(run, run.to_page()),
        at_pages(run.to_page()),
{
    reveal(Run::to_page);
    reveal(Run::to_stale);
    reveal(Run::to_remove);
    let list = unowned(leavings(run), run.live);
    let done = Run { doomed: list, removed: Seq::empty(), ..run };
    lemma_late(Run { publication: done.publication.paths_removed(done.removed), ..done });
}

/// What pages have left behind, with one more output.
pub open spec fn with_stale(list: Seq<Seq<char>>, stale: Option<Seq<char>>) -> Seq<Seq<char>> {
    match stale {
        Some(p) => list.push(p),
        None => list,
    }
}

proof fn lemma_page_done(run: Run, stale: Option<Seq<char>>, written: bool) -> (mid: Run)
    requires
        run.queue.len() > 0,
    ensures
        mid.setup == run.setup,
        mid.live == run.live,
        mid.left_behind == with_stale(run.left_behind, stale),
        mid.vanished == run.vanished,
        mid.refresh_skipped == run.refresh_skipped,
        mid.queue == run.queue.drop_first(),
        mid.outcome.pages_rendered == run.outcome.pages_rendered,
        mid.outcome.pages_pruned == run.outcome.pages_pruned,
        mid.outcome.pages_written == if written {
            run.outcome.pages_written.push(run.queue[0].page)
        } else {
            run.outcome.pages_written
        },
        keeps(mid, run.page_done(stale, written)),
        at_pages(run.page_done(stale, written)),
{
    reveal(Run::page_done);
    reveal(Run::left);
    reveal(Run::noted);
    let path = join_text(run.setup.dist_root, run.queue[0].output_path@);
    let done = Run { publication: run.publication.write_completed(path), ..run }.left(
        stale,
    ).noted(written);
    let mid = Run { queue: done.queue.drop_first(), ..done };
    lemma_to_page(mid);
    mid
}

/// The path at which the answer puts the first page of the queue in place.
pub open spec fn placed_at<E>(run: Run, known: Written, answer: DevAnswer<E>) -> Option<
    Seq<char>,
> {
    match answer {
        DevAnswer::Validated(Ok(dest)) => if known.differs(dest@, bytes_of(run.queue[0].html@)) {
            None
        } else {
            Some(dest@)
        },
        DevAnswer::Written(Ok(_)) => Some(run.wait->Write_dest),
        _ => None,
    }
}

/// What the first page of the queue leaves behind when the answer puts it in
/// place.
pub open spec fn stale_at<E>(run: Run, known: Written, answer: DevAnswer<E>) -> Option<Seq<char>> {
    match answer {
        DevAnswer::Validated(Ok(dest)) => known.moved_from(run.queue[0].page.key(), dest@),
        _ => run.wait->Write_stale,
    }
}

/// The outputs of the routes that the answer says have vanished.
pub open spec fn vanishing<E>(answer: DevAnswer<E>) -> Seq<Seq<char>> {
    match answer {
        DevAnswer::Reloaded(Ok(RefreshOutcome::Refreshed { vanished, .. })) => texts(vanished@),
        _ => Seq::empty(),
    }
}

/// What an answer changes of the pages and outputs of a tick.
pub open spec fn deals<E>(run: Run, known: Written, answer: DevAnswer<E>, next: Run) -> bool {
    let placed = placed_at(run, known, answer) is Some;
    &&& next.setup == run.setup
    &&& next.queue == match answer {
        DevAnswer::Rendered(Ok(rendered)) => rendered@,
        _ => if placed {
            run.queue.drop_first()
        } else {
            run.queue
        },
    }
    &&& next.live == match answer {
        DevAnswer::Validated(Ok(dest)) => run.live.push(dest@),
        _ => run.live,
    }
    &&& next.left_behind == if placed {
        with_stale(run.left_behind, stale_at(run, known, answer))
    } else {
        run.left_behind
    }
    &&& next.vanished == if run.wait is Reload {
        run.vanished + vanishing(answer)
    } else {
        run.vanished
    }
    &&& next.refresh_skipped == (run.refresh_skipped || run.wait is Reload && (answer matches
        DevAnswer::Reloaded(Ok(RefreshOutcome::Skipped))))
    &&& next.outcome.pages_rendered == match answer {
        DevAnswer::Rendered(Ok(rendered)) => rendered@.len(),
        _ => run.outcome.pages_rendered,
    }
    &&& next.outcome.pages_written == if answer is Written {
        run.outcome.pages_written.push(run.queue[0].page)
    } else {
        run.outcome.pages_written
    }
    &&& next.outcome.pages_pruned == if answer is Removed {
        run.outcome.pages_pruned.push(run.doomed[0])
    } else {
        run.outcome.pages_pruned
    }
}

/// What a tick comes to wait for after an answer.
pub open spec fn turns<E>(run: Run, known: Written, answer: DevAnswer<E>, next: Run) -> bool {
    &&& waits_fit(next)
    &&& match run.wait {
        Wait::ClientScripts | Wait::Islands | Wait::Reload => before_pages(next) && next.wait
            != Wait::Remove(Batch::SsrVanished),
        Wait::SsrReload => before_pages(next) && (next.wait == Wait::Remove(Batch::SsrVanished)
            ==> vanishing(answer).len() > 0),
        Wait::Render => at_pages(next),
        Wait::Validate => match placed_at(run, known, answer) {
            Some(_) => at_pages(next),
            None => next.wait == Wait::Write {
                dest: answer->Validated_0->Ok_0@,
                bytes: bytes_of(run.queue[0].html@),
                stale: stale_at(run, known, answer),
            },
        },
        Wait::Write { .. } => at_pages(next),
        Wait::Remove(batch) => if run.doomed.len() > 1 {
            next.wait == run.wait && next.doomed == run.doomed.drop_first()
        } else if batch == Batch::SsrVanished {
            before_pages(next) && next.wait != run.wait
        } else {
            stage(next.wait) > 7
        },
        _ => stage(next.wait) > 8,
    }
}

proof fn lemma_before_pages<E>(run: Run, known: Written, answer: DevAnswer<E>)
    requires
        answers(run.wait, answer),
        error_of(answer) is None,
        answer is ClientScripts || answer is Islands || answer is Reloaded,
        run.wait is SsrReload ==> !run.has_documents(),
    ensures
        deals(run, known, answer, advanced(run, known, answer)),
        turns(run, known, answer, advanced(run, known, answer)),
{
    match answer {
        DevAnswer::ClientScripts(Ok(changed)) => {
            reveal(Run::after_client_scripts);
            lemma_early(
                Run {
                    outcome: Outcome { client_scripts_changed: changed, ..run.outcome },
                    ..run
                },
            );
        },
        DevAnswer::Islands(Ok(info)) => {
            reveal(Run::after_islands);
            lemma_early(run);
            if let Some(i) = info {
                lemma_early(
                    Run {
                        outcome: Outcome {
                            islands_changed: i.changed,
                            islands_bundle: Some(i),
                            ..run.outcome
                        },
                        ..run
                    },
                );
            }
        },
        DevAnswer::Reloaded(Ok(refresh)) => {
            reveal(Run::after_refresh);
            match refresh {
                RefreshOutcome::Skipped => {
                    assert(run.vanished + vanishing(answer) =~= run.vanished);
                    lemma_early(run);
                    lemma_early(Run { refresh_skipped: true, ..run });
                },
                RefreshOutcome::Refreshed { vanished, changed_sources } => {
                    if run.wait == Wait::SsrReload {
                        reveal(Run::to_remove);
                        let list = texts(vanished@);
                        let going = Run { doomed: list, removed: Seq::empty(), ..run };
                        lemma_early(
                            Run {
                                publication: going.publication.paths_removed(going.removed),
                                ..going
                            },
                        );
                    } else {
                        lemma_early(
                            Run {
                                narrowing: if vanished@.len() > 0 || changed_sources@.len() > 0 {
                                    unsafe_hint(run.narrowing)
                                } else {
                                    run.narrowing
                                },
                                vanished: run.vanished + texts(vanished@),
                                ..run
                            },
                        );
                    }
                },
            }
        },
        _ => {},
    }
}

proof fn lemma_at_pages<E>(run: Run, known: Written, answer: DevAnswer<E>)
    requires
        answers(run.wait, answer),
        error_of(answer) is None,
        answer is Rendered || (answer is Validated || answer is Written) && run.queue.len() > 0,
    ensures
        deals(run, known, answer, advanced(run, known, answer)),
        turns(run, known, answer, advanced(run, known, answer)),
{
    match answer {
        DevAnswer::Rendered(Ok(rendered)) => {
            reveal(Run::after_rendered);
            lemma_to_page(
                Run {
                    outcome: Outcome { pages_rendered: rendered@.len(), ..run.outcome },
                    queue: rendered@,
                    ..run
                },
            );
        },
        DevAnswer::Validated(Ok(dest)) => {
            reveal(Run::after_validated);
            let owning = Run { live: run.live.push(dest@), ..run };
            let mid = lemma_page_done(owning, stale_at(run, known, answer), false);
        },
        _ => {
            reveal(Run::after_written);
            let mid = lemma_page_done(run, run.wait->Write_stale, true);
        },
    }
}

proof fn lemma_removing<E>(run: Run, known: Written, answer: DevAnswer<E>)
    requires
        answers(run.wait, answer),
        answer is Removed,
        run.doomed.len() > 0,
        waits_fit(run),
    ensures
        deals(run, known, answer, advanced(run, known, answer)),
        turns(run, known, answer, advanced(run, known, answer)),
{
    reveal(Run::after_removed);
    reveal(Run::to_remove);
    let gone = answer->Removed_0;
    let mid = Run {
        removed: if gone {
            run.removed.push(run.doomed[0])
        } else {
            run.removed
        },
        outcome: Outcome {
            pages_pruned: run.outcome.pages_pruned.push(run.doomed[0]),
            ..run.outcome
        },
        doomed: run.doomed.drop_first(),
        ..run
    };
    let after = Run { publication: mid.publication.paths_removed(mid.removed), ..mid };
    lemma_late(after);
    lemma_early(after);
}

proof fn lemma_after_pages<E>(run: Run, known: Written, answer: DevAnswer<E>)
    requires
        answers(run.wait, answer),
        error_of(answer) is None,
        stage(run.wait) > 8,
    ensures
        deals(run, known, answer, advanced(run, known, answer)),
        turns(run, known, answer, advanced(run, known, answer)),
{
    match answer {
        DevAnswer::Fallbacks(paths) => {
            reveal(Run::after_fallbacks);
            reveal(Run::committed);
            let event = Event::SnapshotLazyFallbacks(texts(paths@));
            let noted = Run { publication: run.publication.emitted(event), ..run };
            lemma_late(noted);
            lemma_after_commit(noted);
        },
        DevAnswer::Css(Ok(changed)) => {
            reveal(Run::after_css);
            let noted = Run { outcome: Outcome { css_changed: changed, ..run.outcome }, ..run };
            lemma_late(noted);
            lemma_after_commit(noted);
        },
        DevAnswer::Stale(paths) => {
            reveal(Run::after_stale);
            let noted = Run {
                outcome: Outcome { pages_stale: texts(paths@), ..run.outcome },
                ..run
            };
            lemma_late(noted);
            lemma_after_commit(noted);
        },
        DevAnswer::Ssr(published) => {
            reveal(Run::after_ssr);
            let noted = Run {
                outcome: Outcome { ssr_routes_published: published, ..run.outcome },
                ..run
            };
            lemma_late(noted);
            lemma_after_commit(noted);
        },
        _ => {
            reveal(Run::after_dynamic);
        },
    }
}

proof fn lemma_after_commit(run: Run)
    ensures
        stage(run.committed().wait) > 8,
        stage(run.to_stale_probe().wait) > 8,
        stage(run.to_ssr_probe().wait) > 8,
        stage(run.to_dynamic_probe().wait) > 8,
{
    reveal(Run::committed);
    reveal(Run::to_css);
    reveal(Run::to_stale_probe);
    reveal(Run::to_ssr_probe);
    reveal(Run::to_dynamic_probe);
}

/// What an answer that is no error does to a tick.
pub proof fn lemma_steps<E>(run: Run, known: Written, answer: DevAnswer<E>)
    requires
        run.orderly(),
        waits_fit(run),
        answers(run.wait, answer),
        error_of(answer) is None,
    ensures
        deals(run, known, answer, advanced(run, known, answer)),
        turns(run, known, answer, advanced(run, known, answer)),
{
    match answer {
        DevAnswer::ClientScripts(_) | DevAnswer::Islands(_) | DevAnswer::Reloaded(_) => {
            lemma_before_pages(run, known, answer);
        },
        DevAnswer::Rendered(_) | DevAnswer::Validated(_) | DevAnswer::Written(_) => {
            lemma_at_pages(run, known, answer);
        },
        DevAnswer::Removed(_) => {
            lemma_removing(run, known, answer);
        },
        _ => {
            lemma_after_pages(run, known, answer);
        },
    }
}

} // verus!
