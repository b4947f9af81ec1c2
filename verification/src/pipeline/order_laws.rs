//! What a dev tick asks for over its whole course: how often, in which order,
//! and what it reports of the answers.

use vstd::prelude::*;

use crate::page::PageId;
use crate::pipeline::cache::Written;
use crate::pipeline::dev::{
    advanced, answers, error_of, opened, remembered, stepped, unowned, unsafe_hint, Batch,
    DevAnswer, DevCapabilities, Run, Setup, Wait,
};
use crate::pipeline::dev_laws::{lemma_tick_begins, lemma_tick_goes_forward, stage};
use crate::pipeline::publication::Event;
use crate::pipeline::{Outcome, RefreshOutcome};
use crate::path::join_text;
use crate::plan::{texts, Plan};

verus! {

/// What an answer answers.
pub enum Ask {
    ClientScripts,
    Islands,
    Reload,
    Render,
    Validate,
    Write,
    Remove,
    Fallbacks,
    Css,
    Stale,
    Ssr,
    Dynamic,
}

pub open spec fn ask_of<E>(answer: DevAnswer<E>) -> Ask {
    match answer {
        DevAnswer::ClientScripts(_) => Ask::ClientScripts,
        DevAnswer::Islands(_) => Ask::Islands,
        DevAnswer::Reloaded(_) => Ask::Reload,
        DevAnswer::Rendered(_) => Ask::Render,
        DevAnswer::Validated(_) => Ask::Validate,
        DevAnswer::Written(_) => Ask::Write,
        DevAnswer::Removed(_) => Ask::Remove,
        DevAnswer::Fallbacks(_) => Ask::Fallbacks,
        DevAnswer::Css(_) => Ask::Css,
        DevAnswer::Stale(_) => Ask::Stale,
        DevAnswer::Ssr(_) => Ask::Ssr,
        DevAnswer::Dynamic(_) => Ask::Dynamic,
    }
}

/// How many of the answers answer `ask`.
pub open spec fn asked<E>(list: Seq<DevAnswer<E>>, ask: Ask) -> nat
    decreases list.len(),
{
    if list.len() == 0 {
        0
    } else if ask_of(list.last()) == ask {
        asked(list.drop_last(), ask) + 1
    } else {
        asked(list.drop_last(), ask)
    }
}

/// Where a tick stands after these answers, and what is then remembered of the
/// writes.
pub open spec fn run_after<E>(run: Run, known: Written, list: Seq<DevAnswer<E>>) -> (Run, Written)
    decreases list.len(),
{
    if list.len() == 0 {
        (run, known)
    } else {
        let (r, k) = run_after(run, known, list.drop_last());
        (
            stepped(r, k, list.last()),
            if error_of(list.last()) is Some {
                k
            } else {
                remembered(r, k, list.last())
            },
        )
    }
}

/// Each of the answers answers what the tick waits for, and none is an error.
pub open spec fn goes<E>(run: Run, known: Written, list: Seq<DevAnswer<E>>) -> bool {
    forall|i: int|
        0 <= i < list.len() ==> answers(
            run_after(run, known, #[trigger] list.take(i)).0.wait,
            list[i],
        ) && error_of(list[i]) is None
}

/// The stages that a tick has at most once, and only where there is a reason.
spec fn optional(s: nat) -> bool {
    s != 3 && s != 6 && s != 7 && s != 8 && s < 14
}

/// There is a reason for the stage.
spec fn due_at(setup: Setup, s: nat) -> bool {
    if s == 0 {
        setup.rerun_client_scripts && setup.caps.client_scripts
    } else if s == 1 {
        setup.rerun_islands && setup.caps.islands
    } else if s == 2 {
        setup.pages.len() == 0 && setup.ssr_reload_needed && !setup.renderer_fresh
            && setup.caps.reload
    } else if s == 4 {
        setup.pages.len() > 0 && !setup.renderer_fresh && setup.caps.reload
    } else if s == 5 {
        setup.pages.len() > 0
    } else if s == 9 {
        (setup.pages.len() > 0 || setup.rerun_islands || setup.rerun_client_scripts
            || setup.ssr_reload_needed) && setup.caps.fallbacks
    } else if s == 10 {
        setup.rerun_css && setup.caps.css
    } else if s == 11 {
        setup.caps.stale
    } else if s == 12 {
        setup.caps.ssr
    } else if s == 13 {
        setup.caps.dynamic
    } else {
        true
    }
}

/// Between the two stages there is none that there is a reason for.
spec fn nothing_between(setup: Setup, from: nat, to: nat) -> bool {
    forall|s: nat| from <= s < to && optional(s) ==> !#[trigger] due_at(setup, s)
}

/// `next` is where `run` comes to from stage `from` without any answer.
spec fn reaches(run: Run, next: Run, from: nat) -> bool {
    &&& next.setup == run.setup
    &&& next.outcome == run.outcome
    &&& next.narrowing == run.narrowing
    &&& from <= stage(next.wait)
    &&& due_at(run.setup, stage(next.wait))
    &&& nothing_between(run.setup, from, stage(next.wait))
}

proof fn lemma_late(run: Run)
    ensures
        reaches(run, run.to_dynamic_probe(), 13),
        reaches(run, run.to_ssr_probe(), 12),
        reaches(run, run.to_stale_probe(), 11),
        reaches(run, run.to_css(), 10),
        reaches(run, run.committed(), 10),
        reaches(run, run.to_commit(), 9),
        reaches(run, run.to_planned(), 8),
{
    reveal(Run::to_css);
    reveal(Run::to_stale_probe);
    reveal(Run::to_ssr_probe);
    reveal(Run::to_dynamic_probe);
    reveal(Run::committed);
    reveal(Run::to_commit);
    reveal(Run::to_planned);
}

proof fn lemma_early(run: Run)
    ensures
        reaches(run, run.to_render(), 5),
        reaches(run, run.to_reload(), 3),
        reaches(run, run.to_ssr_reload(), 2),
        reaches(run, run.to_islands(), 1),
        reaches(run, run.begin(), 0),
{
    reveal(Run::to_render);
    reveal(Run::to_reload);
    reveal(Run::to_ssr_reload);
    reveal(Run::to_islands);
    reveal(Run::begin);
    lemma_late(run);
}

proof fn lemma_remove(run: Run, batch: Batch)
    requires
        batch == Batch::SsrVanished ==> !run.has_documents(),
    ensures
        reaches(run, run.to_remove(batch), stage(Wait::Remove(batch))),
{
    reveal(Run::to_remove);
    let done = Run { publication: run.publication.paths_removed(run.removed), ..run };
    lemma_late(done);
    lemma_early(done);
}

proof fn lemma_page(run: Run)
    ensures
        reaches(run, run.to_page(), 6),
{
    reveal(Run::to_page);
    reveal(Run::to_stale);
    let list = if run.refresh_skipped {
        run.left_behind
    } else {
        run.left_behind + run.vanished
    };
    lemma_remove(
        Run { doomed: unowned(list, run.live), removed: Seq::empty(), ..run },
        Batch::Stale,
    );
}

/// What a tick has done once it is told this.
spec fn reported<E>(run: Run, answer: DevAnswer<E>) -> Outcome {
    let o = run.outcome;
    match answer {
        DevAnswer::ClientScripts(Ok(changed)) => Outcome { client_scripts_changed: changed, ..o },
        DevAnswer::Islands(Ok(Some(i))) => Outcome {
            islands_changed: i.changed,
            islands_bundle: Some(i),
            ..o
        },
        DevAnswer::Rendered(Ok(rendered)) => Outcome { pages_rendered: rendered@.len(), ..o },
        DevAnswer::Written(Ok(_)) => Outcome {
            pages_written: o.pages_written.push(run.queue[0].page),
            ..o
        },
        DevAnswer::Removed(_) => Outcome { pages_pruned: o.pages_pruned.push(run.doomed[0]), ..o },
        DevAnswer::Css(Ok(changed)) => Outcome { css_changed: changed, ..o },
        DevAnswer::Stale(paths) => Outcome { pages_stale: texts(paths@), ..o },
        DevAnswer::Ssr(published) => Outcome { ssr_routes_published: published, ..o },
        DevAnswer::Dynamic(restaled) => Outcome { dynamic_injected_restaled: restaled, ..o },
        _ => o,
    }
}

/// The answer says that routes have moved.
pub open spec fn routes_moved<E>(answer: DevAnswer<E>) -> bool {
    answer matches DevAnswer::Reloaded(Ok(RefreshOutcome::Refreshed { vanished, changed_sources }))
        && (vanished@.len() > 0 || changed_sources@.len() > 0)
}

/// `next` is where the answer brings the tick.
spec fn brings<E>(run: Run, answer: DevAnswer<E>, next: Run) -> bool {
    &&& next.setup == run.setup
    &&& next.outcome == reported(run, answer)
    &&& next.narrowing == if run.wait is Reload && routes_moved(answer) {
        unsafe_hint(run.narrowing)
    } else {
        run.narrowing
    }
    &&& due_at(run.setup, stage(next.wait))
    &&& nothing_between(run.setup, stage(run.wait) + 1, stage(next.wait))
}

proof fn lemma_brings_early<E>(run: Run, known: Written, answer: DevAnswer<E>)
    requires
        answers(run.wait, answer),
        error_of(answer) is None,
        answer is ClientScripts || answer is Islands || answer is Reloaded,
        run.wait is SsrReload ==> !run.has_documents(),
    ensures
        brings(run, answer, advanced(run, known, answer)),
{
    match answer {
        DevAnswer::ClientScripts(Ok(changed)) => {
            reveal(Run::after_client_scripts);
            lemma_early(
                Run {
                    outcome: Outcome { client_scripts_changed: changed, ..run.outcome },
                    ..run
                },
            );
        },
        DevAnswer::Islands(Ok(info)) => {
            reveal(Run::after_islands);
            lemma_early(run);
            if let Some(i) = info {
                lemma_early(
                    Run {
                        outcome: Outcome {
                            islands_changed: i.changed,
                            islands_bundle: Some(i),
                            ..run.outcome
                        },
                        ..run
                    },
                );
            }
        },
        DevAnswer::Reloaded(Ok(refresh)) => {
            reveal(Run::after_refresh);
            match refresh {
                RefreshOutcome::Skipped => {
                    lemma_early(run);
                    lemma_early(Run { refresh_skipped: true, ..run });
                },
                RefreshOutcome::Refreshed { vanished, changed_sources } => {
                    if run.wait == Wait::SsrReload {
                        lemma_remove(
                            Run { doomed: texts(vanished@), removed: Seq::empty(), ..run },
                            Batch::SsrVanished,
                        );
                    } else {
                        lemma_early(
                            Run {
                                narrowing: if vanished@.len() > 0 || changed_sources@.len() > 0 {
                                    unsafe_hint(run.narrowing)
                                } else {
                                    run.narrowing
                                },
                                vanished: run.vanished + texts(vanished@),
                                ..run
                            },
                        );
                    }
                },
            }
        },
        _ => {},
    }
}

proof fn lemma_brings_page(run: Run, stale: Option<Seq<char>>, written: bool)
    requires
        run.queue.len() > 0,
    ensures
        ({
            let next = run.page_done(stale, written);
            &&& next.setup == run.setup
            &&& next.narrowing == run.narrowing
            &&& next.outcome == if written {
                Outcome {
                    pages_written: run.outcome.pages_written.push(run.queue[0].page),
                    ..run.outcome
                }
            } else {
                run.outcome
            }
            &&& due_at(run.setup, stage(next.wait))
            &&& nothing_between(run.setup, 6, stage(next.wait))
        }),
{
    reveal(Run::page_done);
    reveal(Run::left);
    reveal(Run::noted);
    let path = join_text(run.setup.dist_root, run.queue[0].output_path@);
    let done = Run { publication: run.publication.write_completed(path), ..run }.left(
        stale,
    ).noted(written);
    lemma_page(Run { queue: done.queue.drop_first(), ..done });
}

proof fn lemma_brings_pages<E>(run: Run, known: Written, answer: DevAnswer<E>)
    requires
        answers(run.wait, answer),
        error_of(answer) is None,
        answer is Rendered || (answer is Validated || answer is Written) && run.queue.len() > 0,
    ensures
        brings(run, answer, advanced(run, known, answer)),
{
    match answer {
        DevAnswer::Rendered(Ok(rendered)) => {
            reveal(Run::after_rendered);
            lemma_page(
                Run {
                    outcome: Outcome { pages_rendered: rendered@.len(), ..run.outcome },
                    queue: rendered@,
                    ..run
                },
            );
        },
        DevAnswer::Validated(Ok(dest)) => {
            reveal(Run::after_validated);
            let owning = Run { live: run.live.push(dest@), ..run };
            lemma_brings_page(owning, known.moved_from(run.queue[0].page.key(), dest@), false);
        },
        _ => {
            reveal(Run::after_written);
            lemma_brings_page(run, run.wait->Write_stale, true);
        },
    }
}

proof fn lemma_brings_late<E>(run: Run, known: Written, answer: DevAnswer<E>)
    requires
        answers(run.wait, answer),
        error_of(answer) is None,
        stage(run.wait) > 8 || answer is Removed,
        run.wait == Wait::Remove(Batch::SsrVanished) ==> !run.has_documents(),
    ensures
        brings(run, answer, advanced(run, known, answer)),
{
    match answer {
        DevAnswer::Removed(gone) => {
            reveal(Run::after_removed);
            let mid = Run {
                removed: if gone {
                    run.removed.push(run.doomed[0])
                } else {
                    run.removed
                },
                outcome: Outcome {
                    pages_pruned: run.outcome.pages_pruned.push(run.doomed[0]),
                    ..run.outcome
                },
                doomed: run.doomed.drop_first(),
                ..run
            };
            lemma_remove(mid, run.wait->Remove_0);
        },
        DevAnswer::Fallbacks(paths) => {
            reveal(Run::after_fallbacks);
            let event = Event::SnapshotLazyFallbacks(texts(paths@));
            lemma_late(Run { publication: run.publication.emitted(event), ..run });
        },
        DevAnswer::Css(Ok(changed)) => {
            reveal(Run::after_css);
            lemma_late(Run { outcome: Outcome { css_changed: changed, ..run.outcome }, ..run });
        },
        DevAnswer::Stale(paths) => {
            reveal(Run::after_stale);
            lemma_late(
                Run { outcome: Outcome { pages_stale: texts(paths@), ..run.outcome }, ..run },
            );
        },
        DevAnswer::Ssr(published) => {
            reveal(Run::after_ssr);
            lemma_late(
                Run { outcome: Outcome { ssr_routes_published: published, ..run.outcome }, ..run },
            );
        },
        _ => {
            reveal(Run::after_dynamic);
        },
    }
}

proof fn lemma_brings<E>(run: Run, known: Written, answer: DevAnswer<E>)
    requires
        run.orderly(),
        answers(run.wait, answer),
        error_of(answer) is None,
    ensures
        brings(run, answer, advanced(run, known, answer)),
{
    match answer {
        DevAnswer::ClientScripts(_) | DevAnswer::Islands(_) | DevAnswer::Reloaded(_) => {
            lemma_brings_early(run, known, answer);
        },
        DevAnswer::Rendered(_) | DevAnswer::Validated(_) | DevAnswer::Written(_) => {
            lemma_brings_pages(run, known, answer);
        },
        _ => {
            lemma_brings_late(run, known, answer);
        },
    }
}

/// Where in a tick the answer has its place.
spec fn rank(setup: Setup, ask: Ask) -> nat {
    match ask {
        Ask::ClientScripts => 0,
        Ask::Islands => 1,
        Ask::Reload => if setup.pages.len() > 0 {
            4
        } else {
            2
        },
        Ask::Render => 5,
        Ask::Validate | Ask::Write => 6,
        Ask::Remove => 7,
        Ask::Fallbacks => 9,
        Ask::Css => 10,
        Ask::Stale => 11,
        Ask::Ssr => 12,
        Ask::Dynamic => 13,
    }
}

/// The answer has its place among those of a tick that renders pages
/// (`documents`), or renders none.
pub open spec fn place<E>(documents: bool, answer: DevAnswer<E>) -> int {
    match answer {
        DevAnswer::ClientScripts(_) => 0,
        DevAnswer::Islands(_) => 1,
        DevAnswer::Reloaded(_) => 2,
        DevAnswer::Rendered(_) => 4,
        DevAnswer::Validated(_) | DevAnswer::Written(_) => 5,
        DevAnswer::Removed(_) => if documents {
            6
        } else {
            3
        },
        DevAnswer::Fallbacks(_) => 7,
        DevAnswer::Css(_) => 8,
        DevAnswer::Stale(_) => 9,
        DevAnswer::Ssr(_) => 10,
        DevAnswer::Dynamic(_) => 11,
    }
}

/// What holds of a tick after these answers.
spec fn tallied<E>(setup: Setup, run: Run, list: Seq<DevAnswer<E>>) -> bool {
    &&& run.orderly()
    &&& run.setup == setup
    &&& due_at(setup, stage(run.wait))
    &&& forall|ask: Ask|
        optional(rank(setup, ask)) ==> #[trigger] asked(list, ask) == (if due_at(
            setup,
            rank(setup, ask),
        ) && rank(setup, ask) < stage(run.wait) {
            1nat
        } else {
            0nat
        })
    &&& forall|i: int|
        0 <= i < list.len() ==> place(setup.pages.len() > 0, #[trigger] list[i]) <= top(
            setup.pages.len() > 0,
            run.wait,
        )
    &&& forall|i: int, j: int|
        0 <= i < j < list.len() ==> place(setup.pages.len() > 0, #[trigger] list[i]) <= place(
            setup.pages.len() > 0,
            #[trigger] list[j],
        )
}

/// The last place of an answer that can have come before this wait.
spec fn top(documents: bool, wait: Wait) -> int {
    match wait {
        Wait::ClientScripts => 0,
        Wait::Islands => 1,
        Wait::SsrReload | Wait::Reload => 2,
        Wait::Remove(_) => if documents {
            6
        } else {
            3
        },
        Wait::Render => 4,
        Wait::Validate | Wait::Write { .. } => 5,
        Wait::Fallbacks => 7,
        Wait::Css => 8,
        Wait::Stale => 9,
        Wait::Ssr => 10,
        Wait::Dynamic => 11,
        Wait::Finished => 12,
    }
}

proof fn lemma_tally_counts<E>(
    setup: Setup,
    run: Run,
    known: Written,
    list: Seq<DevAnswer<E>>,
    answer: DevAnswer<E>,
    ask: Ask,
)
    requires
        tallied(setup, run, list),
        answers(run.wait, answer),
        error_of(answer) is None,
        optional(rank(setup, ask)),
    ensures
        asked(list.push(answer), ask) == (if due_at(setup, rank(setup, ask)) && rank(setup, ask)
            < stage(advanced(run, known, answer).wait) {
            1nat
        } else {
            0nat
        }),
{
    lemma_tick_goes_forward(run, known, answer);
    lemma_brings(run, known, answer);
    assert(list.push(answer).drop_last() =~= list);
    let s = rank(setup, ask);
    assert(asked(list, ask) == (if due_at(setup, s) && s < stage(run.wait) {
        1nat
    } else {
        0nat
    }));
    let next = advanced(run, known, answer);
    assert(stepped(run, known, answer) == next);
    assert(nothing_between(setup, stage(run.wait) + 1, stage(next.wait)));
    if ask_of(answer) == ask {
        assert(stage(run.wait) == s);
    } else {
        assert(stage(run.wait) != s);
        if stage(run.wait) < s < stage(next.wait) {
            assert(!due_at(setup, s));
        }
    }
}

proof fn lemma_tally<E>(
    setup: Setup,
    run: Run,
    known: Written,
    list: Seq<DevAnswer<E>>,
    answer: DevAnswer<E>,
)
    requires
        tallied(setup, run, list),
        answers(run.wait, answer),
        error_of(answer) is None,
    ensures
        tallied(setup, advanced(run, known, answer), list.push(answer)),
{
    lemma_tick_goes_forward(run, known, answer);
    lemma_brings(run, known, answer);
    let next = advanced(run, known, answer);
    assert(stepped(run, known, answer) == next);
    let longer = list.push(answer);
    let d = setup.pages.len() > 0;
    assert forall|ask: Ask| optional(rank(setup, ask)) implies #[trigger] asked(longer, ask) == (
    if due_at(setup, rank(setup, ask)) && rank(setup, ask) < stage(next.wait) {
        1nat
    } else {
        0nat
    }) by {
        lemma_tally_counts(setup, run, known, list, answer, ask);
    }
    assert(top(d, run.wait) <= place(d, answer));
    assert(place(d, answer) <= top(d, next.wait));
    assert forall|i: int| 0 <= i < longer.len() implies place(d, #[trigger] longer[i]) <= top(
        d,
        next.wait,
    ) by {
        if i < list.len() {
            assert(longer[i] == list[i]);
        }
    }
    assert forall|i: int, j: int| 0 <= i < j < longer.len() implies place(
        d,
        #[trigger] longer[i],
    ) <= place(d, #[trigger] longer[j]) by {
        assert(longer[i] == list[i]);
        if j < list.len() {
            assert(longer[j] == list[j]);
        }
    }
}

/// The answers but the last are those of a tick too, and the last one goes on from
/// there.
pub proof fn lemma_prefix<E>(run: Run, known: Written, list: Seq<DevAnswer<E>>)
    requires
        goes(run, known, list),
        list.len() > 0,
    ensures
        goes(run, known, list.drop_last()),
        answers(run_after(run, known, list.drop_last()).0.wait, list.last()),
        error_of(list.last()) is None,
{
    let before = list.drop_last();
    assert(list.take(list.len() - 1) =~= before);
    assert forall|i: int| 0 <= i < before.len() implies answers(
        run_after(run, known, #[trigger] before.take(i)).0.wait,
        before[i],
    ) && error_of(before[i]) is None by {
        assert(before.take(i) =~= list.take(i));
    }
}

proof fn lemma_tallied<E>(
    plan: Plan,
    pages: Seq<PageId>,
    caps: DevCapabilities,
    dist_root: Seq<char>,
    known: Written,
    list: Seq<DevAnswer<E>>,
)
    requires
        plan.pages is Specific,
        goes(opened(plan, pages, caps, dist_root).begin(), known, list),
    ensures
        tallied(
            opened(plan, pages, caps, dist_root).setup,
            run_after(opened(plan, pages, caps, dist_root).begin(), known, list).0,
            list,
        ),
    decreases list.len(),
{
    let first = opened(plan, pages, caps, dist_root).begin();
    if list.len() == 0 {
        lemma_tick_begins(plan, pages, caps, dist_root);
        lemma_early(opened(plan, pages, caps, dist_root));
    } else {
        lemma_prefix(first, known, list);
        lemma_tallied(plan, pages, caps, dist_root, known, list.drop_last());
        let (r, k) = run_after(first, known, list.drop_last());
        lemma_early(opened(plan, pages, caps, dist_root));
        lemma_tally(first.setup, r, k, list.drop_last(), list.last());
        assert(list.drop_last().push(list.last()) =~= list);
    }
}

/// A tick whose plan selects a page reloads the renderer exactly once before it
/// renders, where there is a reload and the renderer is not fresh, and otherwise
/// not at all, whatever else the plan asks for. It renders once, and never
/// reloads again afterwards.
pub proof fn lemma_reload_comes_before_render<E>(
    plan: Plan,
    pages: Seq<PageId>,
    caps: DevCapabilities,
    dist_root: Seq<char>,
    known: Written,
    list: Seq<DevAnswer<E>>,
)
    requires
        plan.pages is Specific,
        pages.len() > 0,
        goes(opened(plan, pages, caps, dist_root).begin(), known, list),
    ensures
        ({
            let run = run_after(opened(plan, pages, caps, dist_root).begin(), known, list).0;
            let reloads: nat = if caps.reload && !plan.renderer_fresh {
                1
            } else {
                0
            };
            &&& asked(list, Ask::Reload) <= reloads
            &&& asked(list, Ask::Render) <= 1
            &&& run.wait is Render ==> asked(list, Ask::Reload) == reloads && asked(
                list,
                Ask::Render,
            ) == 0
            &&& run.wait is Finished ==> asked(list, Ask::Reload) == reloads && asked(
                list,
                Ask::Render,
            ) == 1
            &&& forall|i: int, j: int|
                0 <= i < list.len() && 0 <= j < list.len() && (#[trigger] list[i]) is Reloaded && (
                #[trigger] list[j]) is Rendered ==> i < j
        }),
{
    lemma_tallied(plan, pages, caps, dist_root, known, list);
    let setup = opened(plan, pages, caps, dist_root).setup;
    assert(optional(rank(setup, Ask::Reload)) && optional(rank(setup, Ask::Render)));
    assert(asked(list, Ask::Reload) <= 1 && asked(list, Ask::Render) <= 1);
    assert forall|i: int, j: int|
        0 <= i < list.len() && 0 <= j < list.len() && (#[trigger] list[i]) is Reloaded && (
        #[trigger] list[j]) is Rendered implies i < j by {
        if j < i {
            assert(place(true, list[j]) <= place(true, list[i]));
        }
    }
}

/// A tick that has come to its end has asked for exactly what its plan and its
/// equipment call for: each bundler that is to run, a reload where pages are
/// rendered or server-rendered routes need it, one rendering of the pages, the
/// fallbacks of whatever it publishes, the CSS, and each of the probes.
pub proof fn lemma_tick_asks_for_what_is_due<E>(
    plan: Plan,
    pages: Seq<PageId>,
    caps: DevCapabilities,
    dist_root: Seq<char>,
    known: Written,
    list: Seq<DevAnswer<E>>,
)
    requires
        plan.pages is Specific,
        goes(opened(plan, pages, caps, dist_root).begin(), known, list),
        run_after(opened(plan, pages, caps, dist_root).begin(), known, list).0.wait is Finished,
    ensures
        asked(list, Ask::ClientScripts) == if plan.rerun_client_scripts && caps.client_scripts {
            1nat
        } else {
            0nat
        },
        asked(list, Ask::Islands) == if plan.rerun_islands && caps.islands {
            1nat
        } else {
            0nat
        },
        asked(list, Ask::Reload) == if caps.reload && !plan.renderer_fresh && (pages.len() > 0
            || plan.ssr_reload_needed) {
            1nat
        } else {
            0nat
        },
        asked(list, Ask::Render) == if pages.len() > 0 {
            1nat
        } else {
            0nat
        },
        asked(list, Ask::Fallbacks) == if caps.fallbacks && (pages.len() > 0 || plan.rerun_islands
            || plan.rerun_client_scripts || plan.ssr_reload_needed) {
            1nat
        } else {
            0nat
        },
        asked(list, Ask::Css) == if plan.rerun_css && caps.css {
            1nat
        } else {
            0nat
        },
        asked(list, Ask::Stale) == if caps.stale {
            1nat
        } else {
            0nat
        },
        asked(list, Ask::Ssr) == if caps.ssr {
            1nat
        } else {
            0nat
        },
        asked(list, Ask::Dynamic) == if caps.dynamic {
            1nat
        } else {
            0nat
        },
{
    lemma_tallied(plan, pages, caps, dist_root, known, list);
    let setup = opened(plan, pages, caps, dist_root).setup;
    assert(forall|ask: Ask| #[trigger]
        asked(list, ask) == asked(list, ask) && !(ask is Validate) && !(ask is Write) && !(
        ask is Remove) ==> optional(rank(setup, ask)));
}

/// The answers of a tick come in one order: the client scripts, the islands, the
/// reload, the rendering, the pages, the deletions, the fallbacks, the CSS, and
/// the probes.
pub proof fn lemma_tick_keeps_its_order<E>(
    plan: Plan,
    pages: Seq<PageId>,
    caps: DevCapabilities,
    dist_root: Seq<char>,
    known: Written,
    list: Seq<DevAnswer<E>>,
    i: int,
    j: int,
)
    requires
        plan.pages is Specific,
        goes(opened(plan, pages, caps, dist_root).begin(), known, list),
        0 <= i < j < list.len(),
    ensures
        place(pages.len() > 0, list[i]) <= place(pages.len() > 0, list[j]),
{
    lemma_tallied(plan, pages, caps, dist_root, known, list);
}

/// Before a tick has come to its reload, it has not been reloaded. It is in order
/// all the time, and does what it was begun for.
pub proof fn lemma_no_reload_yet<E>(
    plan: Plan,
    pages: Seq<PageId>,
    caps: DevCapabilities,
    dist_root: Seq<char>,
    known: Written,
    list: Seq<DevAnswer<E>>,
)
    requires
        plan.pages is Specific,
        goes(opened(plan, pages, caps, dist_root).begin(), known, list),
    ensures
        ({
            let run = run_after(opened(plan, pages, caps, dist_root).begin(), known, list).0;
            &&& run.orderly()
            &&& run.setup == opened(plan, pages, caps, dist_root).setup
            &&& run.wait is ClientScripts || run.wait is Islands || run.wait is SsrReload
                || run.wait is Reload ==> forall|i: int|
                0 <= i < list.len() ==> !(#[trigger] list[i] is Reloaded)
        }),
{
    lemma_tallied(plan, pages, caps, dist_root, known, list);
    let run = run_after(opened(plan, pages, caps, dist_root).begin(), known, list).0;
    let setup = opened(plan, pages, caps, dist_root).setup;
    if run.wait is ClientScripts || run.wait is Islands || run.wait is SsrReload
        || run.wait is Reload {
        assert(optional(rank(setup, Ask::Reload)));
        assert(asked(list, Ask::Reload) == 0);
        assert forall|i: int| 0 <= i < list.len() implies !(#[trigger] list[i] is Reloaded) by {
            lemma_asked_some(list, i);
        }
    }
}

/// One of the answers answers `ask`.
proof fn lemma_asked_some<E>(list: Seq<DevAnswer<E>>, i: int)
    requires
        0 <= i < list.len(),
    ensures
        asked(list, ask_of(list[i])) > 0,
    decreases list.len(),
{
    if i < list.len() - 1 {
        assert(list.drop_last()[i] == list[i]);
        lemma_asked_some(list.drop_last(), i);
    }
}

/// The answer that brings the rendered pages comes once.
pub proof fn lemma_renders_once<E>(
    plan: Plan,
    pages: Seq<PageId>,
    caps: DevCapabilities,
    dist_root: Seq<char>,
    known: Written,
    list: Seq<DevAnswer<E>>,
    i: int,
)
    requires
        plan.pages is Specific,
        goes(opened(plan, pages, caps, dist_root).begin(), known, list),
        0 <= i < list.len(),
        list[i] is Rendered,
    ensures
        forall|j: int| 0 <= j < list.len() && j != i ==> !(#[trigger] list[j] is Rendered),
    decreases list.len(),
{
    let first = opened(plan, pages, caps, dist_root).begin();
    let setup = opened(plan, pages, caps, dist_root).setup;
    let init = list.drop_last();
    lemma_prefix(first, known, list);
    lemma_tallied(plan, pages, caps, dist_root, known, list);
    lemma_tallied(plan, pages, caps, dist_root, known, init);
    assert(optional(rank(setup, Ask::Render)));
    assert(asked(list, Ask::Render) <= 1);
    assert forall|j: int| 0 <= j < list.len() && j != i implies !(#[trigger] list[j]
        is Rendered) by {
        if list[j] is Rendered {
            if i < init.len() && j < init.len() {
                assert(init[i] == list[i] && init[j] == list[j]);
                lemma_renders_once(plan, pages, caps, dist_root, known, init, i);
            } else if i < init.len() {
                assert(init[i] == list[i]);
                lemma_asked_some(init, i);
            } else {
                assert(init[j] == list[j]);
                lemma_asked_some(init, j);
            }
        }
    }
}

/// What is reported repeats what the answer said.
pub open spec fn repeats<E>(outcome: Outcome, answer: DevAnswer<E>) -> bool {
    match answer {
        DevAnswer::ClientScripts(Ok(changed)) => outcome.client_scripts_changed == changed,
        DevAnswer::Islands(Ok(Some(info))) => outcome.islands_changed == info.changed
            && outcome.islands_bundle == Some(info),
        DevAnswer::Islands(Ok(None)) => !outcome.islands_changed && outcome.islands_bundle is None,
        DevAnswer::Rendered(Ok(pages)) => outcome.pages_rendered == pages@.len(),
        DevAnswer::Css(Ok(changed)) => outcome.css_changed == changed,
        DevAnswer::Stale(paths) => outcome.pages_stale.len() == paths@.len() && forall|k: int|
            0 <= k < paths@.len() ==> #[trigger] outcome.pages_stale[k] == paths@[k]@,
        DevAnswer::Ssr(published) => outcome.ssr_routes_published == published,
        DevAnswer::Dynamic(restaled) => outcome.dynamic_injected_restaled == restaled,
        _ => true,
    }
}

/// What was never asked for is reported as not done, and every write and every
/// deletion is counted.
pub open spec fn counts<E>(outcome: Outcome, list: Seq<DevAnswer<E>>) -> bool {
    &&& asked(list, Ask::ClientScripts) == 0 ==> !outcome.client_scripts_changed
    &&& asked(list, Ask::Islands) == 0 ==> !outcome.islands_changed && outcome.islands_bundle
        is None
    &&& asked(list, Ask::Render) == 0 ==> outcome.pages_rendered == 0
    &&& asked(list, Ask::Css) == 0 ==> !outcome.css_changed
    &&& asked(list, Ask::Stale) == 0 ==> outcome.pages_stale.len() == 0
    &&& asked(list, Ask::Ssr) == 0 ==> !outcome.ssr_routes_published
    &&& asked(list, Ask::Dynamic) == 0 ==> !outcome.dynamic_injected_restaled
    &&& outcome.pages_written.len() == asked(list, Ask::Write)
    &&& outcome.pages_pruned.len() == asked(list, Ask::Remove)
}

spec fn reports<E>(outcome: Outcome, list: Seq<DevAnswer<E>>) -> bool {
    &&& forall|i: int| 0 <= i < list.len() ==> repeats(outcome, #[trigger] list[i])
    &&& counts(outcome, list)
}

proof fn lemma_still_repeats<E>(run: Run, answer: DevAnswer<E>, other: DevAnswer<E>)
    requires
        ask_of(other) != ask_of(answer) || answer is Validated || answer is Written
            || answer is Removed || answer is Reloaded || answer is Fallbacks,
        repeats(run.outcome, other),
    ensures
        repeats(reported(run, answer), other),
{
}

proof fn lemma_now_repeats<E>(run: Run, answer: DevAnswer<E>)
    requires
        error_of(answer) is None,
        answer is Islands ==> !run.outcome.islands_changed && run.outcome.islands_bundle is None,
    ensures
        repeats(reported(run, answer), answer),
{
}

proof fn lemma_counts<E>(run: Run, list: Seq<DevAnswer<E>>, answer: DevAnswer<E>)
    requires
        error_of(answer) is None,
        counts(run.outcome, list),
    ensures
        counts(reported(run, answer), list.push(answer)),
{
    assert(list.push(answer).drop_last() =~= list);
    assert(list.push(answer).last() == answer);
}

proof fn lemma_report<E>(
    setup: Setup,
    run: Run,
    known: Written,
    list: Seq<DevAnswer<E>>,
    answer: DevAnswer<E>,
)
    requires
        tallied(setup, run, list),
        answers(run.wait, answer),
        error_of(answer) is None,
        reports(run.outcome, list),
    ensures
        reports(reported(run, answer), list.push(answer)),
{
    let longer = list.push(answer);
    let ask = ask_of(answer);
    if optional(rank(setup, ask)) {
        lemma_tally_counts(setup, run, known, list, answer, ask);
        assert(longer.drop_last() =~= list);
        assert(longer.last() == answer);
        assert(asked(list, ask) == 0);
    }
    assert forall|i: int| 0 <= i < longer.len() implies repeats(
        reported(run, answer),
        #[trigger] longer[i],
    ) by {
        if i < list.len() {
            assert(longer[i] == list[i]);
            lemma_asked_some(list, i);
            assert(repeats(run.outcome, list[i]));
            lemma_still_repeats(run, answer, list[i]);
        } else {
            assert(longer[i] == answer);
            lemma_now_repeats(run, answer);
        }
    }
    lemma_counts(run, list, answer);
}

proof fn lemma_reported<E>(
    plan: Plan,
    pages: Seq<PageId>,
    caps: DevCapabilities,
    dist_root: Seq<char>,
    known: Written,
    list: Seq<DevAnswer<E>>,
)
    requires
        plan.pages is Specific,
        goes(opened(plan, pages, caps, dist_root).begin(), known, list),
    ensures
        reports(
            run_after(opened(plan, pages, caps, dist_root).begin(), known, list).0.outcome,
            list,
        ),
    decreases list.len(),
{
    let first = opened(plan, pages, caps, dist_root).begin();
    lemma_early(opened(plan, pages, caps, dist_root));
    if list.len() > 0 {
        lemma_prefix(first, known, list);
        lemma_tallied(plan, pages, caps, dist_root, known, list.drop_last());
        lemma_reported(plan, pages, caps, dist_root, known, list.drop_last());
        let (r, k) = run_after(first, known, list.drop_last());
        lemma_report(first.setup, r, k, list.drop_last(), list.last());
        lemma_brings(r, k, list.last());
        assert(list.drop_last().push(list.last()) =~= list);
    }
}

/// What a tick reports repeats what it was told, for each answer, and says of
/// nothing that it was done where it was not asked for. As many pages are
/// reported as written as there were writes, and as many outputs as deleted as
/// there were deletions.
pub proof fn lemma_outcome_repeats_answers<E>(
    plan: Plan,
    pages: Seq<PageId>,
    caps: DevCapabilities,
    dist_root: Seq<char>,
    known: Written,
    list: Seq<DevAnswer<E>>,
)
    requires
        plan.pages is Specific,
        goes(opened(plan, pages, caps, dist_root).begin(), known, list),
    ensures
        ({
            let outcome = run_after(
                opened(plan, pages, caps, dist_root).begin(),
                known,
                list,
            ).0.outcome;
            &&& forall|i: int| 0 <= i < list.len() ==> repeats(outcome, #[trigger] list[i])
            &&& counts(outcome, list)
        }),
{
    lemma_reported(plan, pages, caps, dist_root, known, list);
}

/// Whether each sub-pipeline was asked for is reported as the plan has it, from
/// the first to the last of a tick.
pub proof fn lemma_outcome_repeats_plan<E>(
    plan: Plan,
    pages: Seq<PageId>,
    caps: DevCapabilities,
    dist_root: Seq<char>,
    known: Written,
    list: Seq<DevAnswer<E>>,
)
    requires
        plan.pages is Specific,
        goes(opened(plan, pages, caps, dist_root).begin(), known, list),
    ensures
        ({
            let outcome = run_after(
                opened(plan, pages, caps, dist_root).begin(),
                known,
                list,
            ).0.outcome;
            &&& outcome.css_rerun == plan.rerun_css
            &&& outcome.islands_rerun == plan.rerun_islands
            &&& outcome.client_scripts_rerun == plan.rerun_client_scripts
            &&& outcome.hashed_asset_urls.len() == 0
        }),
    decreases list.len(),
{
    let first = opened(plan, pages, caps, dist_root).begin();
    lemma_early(opened(plan, pages, caps, dist_root));
    if list.len() > 0 {
        lemma_prefix(first, known, list);
        lemma_tallied(plan, pages, caps, dist_root, known, list.drop_last());
        lemma_outcome_repeats_plan(plan, pages, caps, dist_root, known, list.drop_last());
        let (r, k) = run_after(first, known, list.drop_last());
        lemma_brings(r, k, list.last());
    }
}

/// The hint that a tick gives its renderer is the plan's. It names the same
/// files; and it says that nothing else has to be rendered exactly where the plan
/// says so, the renderer was not reloaded before the tick, and no reload in it
/// found that routes have moved.
pub proof fn lemma_hint_reaches_renderer<E>(
    plan: Plan,
    pages: Seq<PageId>,
    caps: DevCapabilities,
    dist_root: Seq<char>,
    known: Written,
    list: Seq<DevAnswer<E>>,
)
    requires
        plan.pages is Specific,
        pages.len() > 0,
        goes(opened(plan, pages, caps, dist_root).begin(), known, list),
    ensures
        ({
            let run = run_after(opened(plan, pages, caps, dist_root).begin(), known, list).0;
            match plan.content_narrowing {
                Some(hint) => run.narrowing matches Some(h) && h.changed_content
                    == hint.changed_content && h.fan_out_safe == (hint.fan_out_safe
                    && !plan.renderer_fresh && forall|i: int|
                    0 <= i < list.len() ==> !routes_moved(#[trigger] list[i])),
                None => run.narrowing is None,
            }
        }),
    decreases list.len(),
{
    let first = opened(plan, pages, caps, dist_root).begin();
    lemma_early(opened(plan, pages, caps, dist_root));
    if list.len() > 0 {
        let init = list.drop_last();
        lemma_prefix(first, known, list);
        lemma_tallied(plan, pages, caps, dist_root, known, init);
        lemma_hint_reaches_renderer(plan, pages, caps, dist_root, known, init);
        let (r, k) = run_after(first, known, init);
        lemma_brings(r, k, list.last());
        assert(list.last() is Reloaded ==> r.wait is Reload);
        assert(list[list.len() - 1] == list.last());
        assert((forall|i: int| 0 <= i < list.len() ==> !routes_moved(#[trigger] list[i])) == ((
        forall|i: int| 0 <= i < init.len() ==> !routes_moved(#[trigger] init[i])) && !routes_moved(
            list.last(),
        ))) by {
            if forall|i: int| 0 <= i < list.len() ==> !routes_moved(#[trigger] list[i]) {
                assert forall|i: int| 0 <= i < init.len() implies !routes_moved(
                    #[trigger] init[i],
                ) by {
                    assert(init[i] == list[i]);
                }
            }
            if (forall|i: int| 0 <= i < init.len() ==> !routes_moved(#[trigger] init[i]))
                && !routes_moved(list.last()) {
                assert forall|i: int| 0 <= i < list.len() implies !routes_moved(
                    #[trigger] list[i],
                ) by {
                    if i < init.len() {
                        assert(init[i] == list[i]);
                    }
                }
            }
        }
    }
}

} // verus!
