//! Which outputs a dev tick deletes: all that vanished routes leave without a
//! page, and none but those that it was told of or had written.

use vstd::prelude::*;

use crate::page::PageId;
use crate::path::{join_text, parts, Part};
use crate::pipeline::cache::Written;
use crate::pipeline::dev::{
    advanced, answers, error_of, opened, owned, remembered, stepped, unowned, unsafe_hint, Batch,
    DevAnswer, DevCapabilities, Run, Wait,
};
use crate::pipeline::dev_laws::stage;
use crate::pipeline::order_laws::{goes, lemma_no_reload_yet, lemma_prefix, run_after};
use crate::pipeline::publication::Event;
use crate::pipeline::walk::{
    at_pages, leavings, lemma_begins, lemma_steps, stale_at, vanishing, waits_fit, with_stale,
};
use crate::pipeline::{Outcome, RefreshOutcome};
use crate::plan::{texts, Plan};

verus! {

/// The list names this path, as it is spelled.
pub open spec fn lists(list: Seq<String>, path: Seq<char>) -> bool {
    exists|k: int| 0 <= k < list.len() && (#[trigger] list[k])@ == path
}

/// One of the answers says that this output has vanished.
pub open spec fn vanished_in<E>(list: Seq<DevAnswer<E>>, path: Seq<char>) -> bool {
    exists|i: int|
        0 <= i < list.len() && (#[trigger] list[i] matches DevAnswer::Reloaded(
            Ok(RefreshOutcome::Refreshed { vanished, .. }),
        ) && lists(vanished@, path))
}

/// One of the answers puts a page at this path, however it is spelled.
pub open spec fn taken_in<E>(list: Seq<DevAnswer<E>>, path: Seq<char>) -> bool {
    exists|i: int|
        0 <= i < list.len() && (#[trigger] list[i] matches DevAnswer::Validated(Ok(dest)) && parts(
            dest@,
        ) == parts(path))
}

/// Some page was remembered to be at this path.
pub open spec fn remembered_at(known: Written, path: Seq<char>) -> bool {
    exists|key: Seq<Part>| #[trigger]
        known.outputs.contains_key(key) && known.outputs[key] == path
}

proof fn lemma_longer<E>(list: Seq<DevAnswer<E>>, answer: DevAnswer<E>, path: Seq<char>)
    ensures
        vanished_in(list.push(answer), path) <==> vanished_in(list, path) || vanishing(
            answer,
        ).contains(path),
        taken_in(list, path) ==> taken_in(list.push(answer), path),
        answer matches DevAnswer::Validated(Ok(dest)) ==> parts(dest@) == parts(path) ==> taken_in(
            list.push(answer),
            path,
        ),
{
    let longer = list.push(answer);
    let n = list.len() as int;
    assert(longer[n] == answer);
    assert(vanishing(answer).contains(path) <==> (answer matches DevAnswer::Reloaded(
        Ok(RefreshOutcome::Refreshed { vanished, .. }),
    ) && lists(vanished@, path))) by {
        if let DevAnswer::Reloaded(Ok(RefreshOutcome::Refreshed { vanished, .. })) = answer {
            if lists(vanished@, path) {
                let k = choose|k: int| 0 <= k < vanished@.len() && (#[trigger] vanished@[k])@
                    == path;
                assert(texts(vanished@)[k] == path);
            }
            if texts(vanished@).contains(path) {
                let k = choose|k: int|
                    0 <= k < texts(vanished@).len() && texts(vanished@)[k] == path;
                assert(vanished@[k]@ == path);
            }
        }
    }
    if vanished_in(list, path) {
        let i = choose|i: int|
            0 <= i < list.len() && (#[trigger] list[i] matches DevAnswer::Reloaded(
                Ok(RefreshOutcome::Refreshed { vanished, .. }),
            ) && lists(vanished@, path));
        assert(longer[i] == list[i]);
    }
    if vanished_in(longer, path) {
        let i = choose|i: int|
            0 <= i < longer.len() && (#[trigger] longer[i] matches DevAnswer::Reloaded(
                Ok(RefreshOutcome::Refreshed { vanished, .. }),
            ) && lists(vanished@, path));
        if i < n {
            assert(list[i] == longer[i]);
        }
    }
    if taken_in(list, path) {
        let i = choose|i: int|
            0 <= i < list.len() && (#[trigger] list[i] matches DevAnswer::Validated(Ok(dest))
                && parts(dest@) == parts(path));
        assert(longer[i] == list[i]);
    }
}

/// Where the output of a vanished route stands.
spec fn going(run: Run, path: Seq<char>) -> bool {
    let pruned = run.outcome.pages_pruned.contains(path);
    if run.has_documents() {
        if stage(run.wait) < 7 {
            run.vanished.contains(path) && !run.refresh_skipped
        } else {
            pruned || owned(run.live, path) || stage(run.wait) == 7 && run.doomed.contains(path)
        }
    } else {
        pruned || stage(run.wait) == 3 && run.doomed.contains(path)
    }
}

/// What an answer that only reloads leaves to be deleted.
proof fn lemma_reload_dooms<E>(run: Run, known: Written, answer: DevAnswer<E>)
    requires
        run.wait is SsrReload,
        answers(run.wait, answer),
        error_of(answer) is None,
        vanishing(answer).len() > 0,
    ensures
        advanced(run, known, answer).wait == Wait::Remove(Batch::SsrVanished),
        advanced(run, known, answer).doomed == vanishing(answer),
{
    reveal(Run::after_refresh);
    reveal(Run::to_remove);
}

proof fn lemma_unowned(list: Seq<Seq<char>>, live: Seq<Seq<char>>, path: Seq<char>)
    ensures
        unowned(list, live).contains(path) <==> list.contains(path) && !owned(live, path),
    decreases list.len(),
{
    if list.len() > 0 {
        let init = list.drop_last();
        let before = unowned(init, live);
        let last = list.last();
        lemma_unowned(init, live, path);
        assert(list =~= init.push(last));
        lemma_pushed(init, last, path);
        lemma_pushed(before, last, path);
    }
}

proof fn lemma_pushed<A>(list: Seq<A>, last: A, x: A)
    ensures
        list.push(last).contains(x) <==> list.contains(x) || last == x,
{
    let all = list.push(last);
    if list.contains(x) {
        let i = choose|i: int| 0 <= i < list.len() && list[i] == x;
        assert(all[i] == x);
    }
    if last == x {
        assert(all[list.len() as int] == x);
    }
    if all.contains(x) {
        let i = choose|i: int| 0 <= i < all.len() && all[i] == x;
        if i < list.len() {
            assert(list[i] == x);
        }
    }
}

proof fn lemma_joined<A>(a: Seq<A>, b: Seq<A>, x: A)
    ensures
        (a + b).contains(x) <==> a.contains(x) || b.contains(x),
{
    let all = a + b;
    if a.contains(x) {
        let i = choose|i: int| 0 <= i < a.len() && a[i] == x;
        assert(all[i] == x);
    }
    if b.contains(x) {
        let i = choose|i: int| 0 <= i < b.len() && b[i] == x;
        assert(all[a.len() + i] == x);
    }
    if all.contains(x) {
        let i = choose|i: int| 0 <= i < all.len() && all[i] == x;
        if i < a.len() {
            assert(a[i] == x);
        } else {
            assert(b[i - a.len()] == x);
        }
    }
}

/// What is at hand of a list but its first item is deleted next.
proof fn lemma_rest(list: Seq<Seq<char>>, path: Seq<char>)
    requires
        list.len() > 0,
        list.contains(path),
        list[0] != path,
    ensures
        list.len() > 1,
        list.drop_first().contains(path),
{
    let i = choose|i: int| 0 <= i < list.len() && list[i] == path;
    assert(list.drop_first()[i - 1] == path);
}

proof fn lemma_owned_stays(live: Seq<Seq<char>>, dest: Seq<char>, path: Seq<char>)
    requires
        owned(live, path),
    ensures
        owned(live.push(dest), path),
{
    let i = choose|i: int| 0 <= i < live.len() && parts(#[trigger] live[i]) == parts(path);
    assert(live.push(dest)[i] == live[i]);
}

/// The output of a vanished route goes on to be deleted.
proof fn lemma_goes_on<E>(run: Run, known: Written, answer: DevAnswer<E>, path: Seq<char>)
    requires
        run.orderly(),
        waits_fit(run),
        answers(run.wait, answer),
        error_of(answer) is None,
        answer is Reloaded ==> vanishing(answer).contains(path),
        !(answer is Reloaded) ==> going(run, path),
        !(run.wait is ClientScripts) && !(run.wait is Islands),
        stage(run.wait) >= 4 || !run.has_documents(),
        run.wait is Reload ==> !run.refresh_skipped,
    ensures
        going(advanced(run, known, answer), path),
{
    let next = advanced(run, known, answer);
    lemma_steps(run, known, answer);
    crate::pipeline::dev_laws::lemma_tick_goes_forward(run, known, answer);
    assert(stepped(run, known, answer) == next);
    lemma_joined(run.vanished, vanishing(answer), path);
    match run.wait {
        Wait::SsrReload => {
            lemma_reload_dooms(run, known, answer);
        },
        Wait::Reload => {},
        Wait::Render | Wait::Validate | Wait::Write { .. } => {
            lemma_joined(next.left_behind, next.vanished, path);
            lemma_unowned(leavings(next), next.live, path);
        },
        Wait::Remove(_) => {
            lemma_pushed(run.outcome.pages_pruned, run.doomed[0], path);
            if run.doomed.contains(path) && run.doomed[0] != path {
                lemma_rest(run.doomed, path);
            }
        },
        _ => {},
    }
}

/// Every output of a vanished route is on its way.
spec fn all_going<E>(run: Run, list: Seq<DevAnswer<E>>) -> bool {
    &&& waits_fit(run)
    &&& run.wait is Reload ==> !run.refresh_skipped
    &&& stage(run.wait) < 4 ==> !run.refresh_skipped
    &&& forall|k: int| 0 <= k < run.live.len() ==> taken_in(list, #[trigger] run.live[k])
    &&& forall|path: Seq<char>| #[trigger] vanished_in(list, path) ==> going(run, path)
}

proof fn lemma_all_going<E>(
    plan: Plan,
    pages: Seq<PageId>,
    caps: DevCapabilities,
    dist_root: Seq<char>,
    known: Written,
    list: Seq<DevAnswer<E>>,
)
    requires
        plan.pages is Specific,
        goes(opened(plan, pages, caps, dist_root).begin(), known, list),
    ensures
        all_going(run_after(opened(plan, pages, caps, dist_root).begin(), known, list).0, list),
    decreases list.len(),
{
    let first = opened(plan, pages, caps, dist_root).begin();
    if list.len() == 0 {
        lemma_begins(opened(plan, pages, caps, dist_root));
    } else {
        let init = list.drop_last();
        let answer = list.last();
        lemma_prefix(first, known, list);
        lemma_all_going(plan, pages, caps, dist_root, known, init);
        lemma_no_reload_yet(plan, pages, caps, dist_root, known, init);
        let (run, k) = run_after(first, known, init);
        let next = advanced(run, k, answer);
        assert(run_after(first, known, list).0 == next);
        assert(list =~= init.push(answer));
        lemma_steps(run, k, answer);
        crate::pipeline::dev_laws::lemma_tick_goes_forward(run, k, answer);
        assert(stepped(run, k, answer) == next);
        assert forall|j: int| 0 <= j < next.live.len() implies taken_in(
            list,
            #[trigger] next.live[j],
        ) by {
            lemma_longer(init, answer, next.live[j]);
            if j < run.live.len() {
                assert(next.live[j] == run.live[j]);
            }
        }
        assert forall|path: Seq<char>| #[trigger] vanished_in(list, path) implies going(
            next,
            path,
        ) by {
            lemma_longer(init, answer, path);
            if run.wait is ClientScripts || run.wait is Islands || run.wait is SsrReload
                || run.wait is Reload {
                assert(!vanished_in(init, path));
            }
            if vanished_in(init, path) {
                assert(going(run, path));
            }
            lemma_goes_on(run, k, answer, path);
        }
    }
}

/// When a tick has come to its end, every output that a reload in it reported as
/// vanished has been deleted, unless the tick has put a page there.
pub proof fn lemma_vanished_outputs_go<E>(
    plan: Plan,
    pages: Seq<PageId>,
    caps: DevCapabilities,
    dist_root: Seq<char>,
    known: Written,
    list: Seq<DevAnswer<E>>,
    path: Seq<char>,
)
    requires
        plan.pages is Specific,
        goes(opened(plan, pages, caps, dist_root).begin(), known, list),
        run_after(opened(plan, pages, caps, dist_root).begin(), known, list).0.wait is Finished,
        vanished_in(list, path),
    ensures
        run_after(
            opened(plan, pages, caps, dist_root).begin(),
            known,
            list,
        ).0.outcome.pages_pruned.contains(path) || taken_in(list, path),
{
    lemma_all_going(plan, pages, caps, dist_root, known, list);
    let run = run_after(opened(plan, pages, caps, dist_root).begin(), known, list).0;
    assert(going(run, path));
    if owned(run.live, path) {
        let i = choose|i: int|
            0 <= i < run.live.len() && parts(#[trigger] run.live[i]) == parts(path);
        assert(taken_in(list, run.live[i]));
        let j = choose|j: int|
            0 <= j < list.len() && (#[trigger] list[j] matches DevAnswer::Validated(Ok(dest))
                && parts(dest@) == parts(run.live[i]));
        assert(taken_in(list, path));
    }
}

/// Where `next` is at the plan's own deletions, these are what is to be deleted.
spec fn plans(run: Run, next: Run) -> bool {
    next.wait == Wait::Remove(Batch::Planned) ==> next.doomed == run.setup.prune_paths
}

proof fn lemma_late_plans(run: Run)
    ensures
        plans(run, run.to_dynamic_probe()),
        plans(run, run.to_ssr_probe()),
        plans(run, run.to_stale_probe()),
        plans(run, run.to_css()),
        plans(run, run.committed()),
        plans(run, run.to_commit()),
        plans(run, run.to_planned()),
{
    reveal(Run::to_css);
    reveal(Run::to_stale_probe);
    reveal(Run::to_ssr_probe);
    reveal(Run::to_dynamic_probe);
    reveal(Run::committed);
    reveal(Run::to_commit);
    reveal(Run::to_planned);
}

proof fn lemma_early_plans(run: Run)
    ensures
        plans(run, run.to_render()),
        plans(run, run.to_reload()),
        plans(run, run.to_ssr_reload()),
        plans(run, run.to_islands()),
        plans(run, run.begin()),
{
    reveal(Run::to_render);
    reveal(Run::to_reload);
    reveal(Run::to_ssr_reload);
    reveal(Run::to_islands);
    reveal(Run::begin);
    lemma_late_plans(run);
}

proof fn lemma_remove_plans(run: Run, batch: Batch)
    requires
        run.doomed.len() > 0 ==> batch != Batch::Planned,
    ensures
        plans(run, run.to_remove(batch)),
{
    reveal(Run::to_remove);
    let done = Run { publication: run.publication.paths_removed(run.removed), ..run };
    lemma_late_plans(done);
    lemma_early_plans(done);
}

proof fn lemma_page_plans(run: Run)
    ensures
        plans(run, run.to_page()),
{
    reveal(Run::to_page);
    reveal(Run::to_stale);
    let list = if run.refresh_skipped {
        run.left_behind
    } else {
        run.left_behind + run.vanished
    };
    lemma_remove_plans(
        Run { doomed: unowned(list, run.live), removed: Seq::empty(), ..run },
        Batch::Stale,
    );
}

proof fn lemma_done_plans(run: Run, stale: Option<Seq<char>>, written: bool)
    ensures
        plans(run, run.page_done(stale, written)),
{
    reveal(Run::page_done);
    reveal(Run::left);
    reveal(Run::noted);
    let path = join_text(run.setup.dist_root, run.queue[0].output_path@);
    let done = Run { publication: run.publication.write_completed(path), ..run }.left(
        stale,
    ).noted(written);
    lemma_page_plans(Run { queue: done.queue.drop_first(), ..done });
}

proof fn lemma_step_plans<E>(run: Run, known: Written, answer: DevAnswer<E>)
    requires
        answers(run.wait, answer),
        error_of(answer) is None,
        run.wait != Wait::Remove(Batch::Planned) || run.doomed.len() <= 1,
        run.wait is Remove ==> run.doomed.len() > 0,
    ensures
        plans(run, advanced(run, known, answer)),
{
    match answer {
        DevAnswer::ClientScripts(Ok(changed)) => {
            reveal(Run::after_client_scripts);
            lemma_early_plans(
                Run {
                    outcome: Outcome { client_scripts_changed: changed, ..run.outcome },
                    ..run
                },
            );
        },
        DevAnswer::Islands(Ok(info)) => {
            reveal(Run::after_islands);
            lemma_early_plans(run);
            if let Some(i) = info {
                lemma_early_plans(
                    Run {
                        outcome: Outcome {
                            islands_changed: i.changed,
                            islands_bundle: Some(i),
                            ..run.outcome
                        },
                        ..run
                    },
                );
            }
        },
        DevAnswer::Reloaded(Ok(refresh)) => {
            reveal(Run::after_refresh);
            match refresh {
                RefreshOutcome::Skipped => {
                    lemma_early_plans(run);
                    lemma_early_plans(Run { refresh_skipped: true, ..run });
                },
                RefreshOutcome::Refreshed { vanished, changed_sources } => {
                    if run.wait == Wait::SsrReload {
                        lemma_remove_plans(
                            Run { doomed: texts(vanished@), removed: Seq::empty(), ..run },
                            Batch::SsrVanished,
                        );
                    } else {
                        lemma_early_plans(
                            Run {
                                narrowing: if vanished@.len() > 0 || changed_sources@.len() > 0 {
                                    unsafe_hint(run.narrowing)
                                } else {
                                    run.narrowing
                                },
                                vanished: run.vanished + texts(vanished@),
                                ..run
                            },
                        );
                    }
                },
            }
        },
        DevAnswer::Rendered(Ok(rendered)) => {
            reveal(Run::after_rendered);
            lemma_page_plans(
                Run {
                    outcome: Outcome { pages_rendered: rendered@.len(), ..run.outcome },
                    queue: rendered@,
                    ..run
                },
            );
        },
        DevAnswer::Validated(Ok(dest)) => {
            reveal(Run::after_validated);
            let owning = Run { live: run.live.push(dest@), ..run };
            lemma_done_plans(owning, known.moved_from(run.queue[0].page.key(), dest@), false);
        },
        DevAnswer::Written(_) => {
            reveal(Run::after_written);
            lemma_done_plans(run, run.wait->Write_stale, true);
        },
        DevAnswer::Removed(gone) => {
            reveal(Run::after_removed);
            let mid = Run {
                removed: if gone {
                    run.removed.push(run.doomed[0])
                } else {
                    run.removed
                },
                outcome: Outcome {
                    pages_pruned: run.outcome.pages_pruned.push(run.doomed[0]),
                    ..run.outcome
                },
                doomed: run.doomed.drop_first(),
                ..run
            };
            lemma_remove_plans(mid, run.wait->Remove_0);
        },
        DevAnswer::Fallbacks(paths) => {
            reveal(Run::after_fallbacks);
            let event = Event::SnapshotLazyFallbacks(texts(paths@));
            lemma_late_plans(Run { publication: run.publication.emitted(event), ..run });
        },
        DevAnswer::Css(Ok(changed)) => {
            reveal(Run::after_css);
            lemma_late_plans(
                Run { outcome: Outcome { css_changed: changed, ..run.outcome }, ..run },
            );
        },
        DevAnswer::Stale(paths) => {
            reveal(Run::after_stale);
            lemma_late_plans(
                Run { outcome: Outcome { pages_stale: texts(paths@), ..run.outcome }, ..run },
            );
        },
        DevAnswer::Ssr(published) => {
            reveal(Run::after_ssr);
            lemma_late_plans(
                Run { outcome: Outcome { ssr_routes_published: published, ..run.outcome }, ..run },
            );
        },
        _ => {
            reveal(Run::after_dynamic);
        },
    }
}

/// A page was at the path before the tick, or the tick has put one there.
pub open spec fn had<E>(known: Written, list: Seq<DevAnswer<E>>, path: Seq<char>) -> bool {
    remembered_at(known, path) || taken_in(list, path)
}

/// There is a reason to delete the path.
pub open spec fn may_go<E>(
    plan: Plan,
    known: Written,
    list: Seq<DevAnswer<E>>,
    path: Seq<char>,
) -> bool {
    plan.prune_paths.contains(path) || vanished_in(list, path) || had(known, list, path)
}

proof fn lemma_may_still_go<E>(
    plan: Plan,
    known: Written,
    list: Seq<DevAnswer<E>>,
    answer: DevAnswer<E>,
    path: Seq<char>,
)
    ensures
        had(known, list, path) ==> had(known, list.push(answer), path),
        may_go(plan, known, list, path) ==> may_go(plan, known, list.push(answer), path),
{
    lemma_longer(list, answer, path);
}

/// Everything that the tick may come to delete has a reason to be.
spec fn all_have_reasons<E>(
    plan: Plan,
    known: Written,
    run: Run,
    now: Written,
    list: Seq<DevAnswer<E>>,
) -> bool {
    &&& waits_fit(run)
    &&& run.setup.prune_paths == plan.prune_paths
    &&& forall|path: Seq<char>| #[trigger] remembered_at(now, path) ==> had(known, list, path)
    &&& forall|path: Seq<char>| #[trigger]
        run.left_behind.contains(path) ==> had(known, list, path)
    &&& forall|path: Seq<char>| #[trigger]
        run.vanished.contains(path) ==> plan.prune_paths.contains(path) || vanished_in(list, path)
    &&& forall|path: Seq<char>| #[trigger]
        run.outcome.pages_pruned.contains(path) ==> may_go(plan, known, list, path)
    &&& run.wait is Remove ==> forall|path: Seq<char>| #[trigger]
        run.doomed.contains(path) ==> may_go(plan, known, list, path)
    &&& run.wait matches Wait::Write { dest, stale, .. } ==> taken_in(list, dest) && (stale
        matches Some(p) ==> had(known, list, p))
}

/// What is remembered after an answer was remembered before, or is where the
/// answer has put a page.
proof fn lemma_now_remembered<E>(
    run: Run,
    now: Written,
    answer: DevAnswer<E>,
    path: Seq<char>,
)
    requires
        answers(run.wait, answer),
        error_of(answer) is None,
        remembered_at(remembered(run, now, answer), path),
    ensures
        remembered_at(now, path) || (answer matches DevAnswer::Validated(Ok(dest)) && dest@ == path)
            || (run.wait matches Wait::Write { dest, .. } && dest == path),
{
    reveal(Run::known_after_validated);
    reveal(Run::known_after_written);
    let later = remembered(run, now, answer);
    let key = choose|key: Seq<Part>| #[trigger]
        later.outputs.contains_key(key) && later.outputs[key] == path;
    if now.outputs.contains_key(key) && now.outputs[key] == path {
        assert(remembered_at(now, path));
    }
}

proof fn lemma_reasons_of_pages<E>(
    plan: Plan,
    known: Written,
    run: Run,
    now: Written,
    list: Seq<DevAnswer<E>>,
    answer: DevAnswer<E>,
    path: Seq<char>,
)
    requires
        run.orderly(),
        all_have_reasons(plan, known, run, now, list),
        answers(run.wait, answer),
        error_of(answer) is None,
        advanced(run, now, answer).left_behind.contains(path),
    ensures
        had(known, list.push(answer), path),
{
    let next = advanced(run, now, answer);
    lemma_steps(run, now, answer);
    lemma_may_still_go(plan, known, list, answer, path);
    if !run.left_behind.contains(path) {
        let stale = stale_at(run, now, answer);
        assert(next.left_behind == with_stale(run.left_behind, stale));
        assert(stale is Some);
        lemma_pushed(run.left_behind, stale->0, path);
        if answer is Validated {
            let key = run.queue[0].page.key();
            assert(now.outputs.contains_key(key) && now.outputs[key] == path);
            assert(remembered_at(now, path));
        }
    }
}

proof fn lemma_reasons_go_on<E>(
    plan: Plan,
    known: Written,
    run: Run,
    now: Written,
    list: Seq<DevAnswer<E>>,
    answer: DevAnswer<E>,
)
    requires
        run.orderly(),
        all_have_reasons(plan, known, run, now, list),
        answers(run.wait, answer),
        error_of(answer) is None,
        run.wait is SsrReload ==> !run.has_documents(),
    ensures
        all_have_reasons(
            plan,
            known,
            advanced(run, now, answer),
            remembered(run, now, answer),
            list.push(answer),
        ),
{
    let next = advanced(run, now, answer);
    let later = remembered(run, now, answer);
    let longer = list.push(answer);
    lemma_steps(run, now, answer);
    assert forall|path: Seq<char>| #[trigger] remembered_at(later, path) implies had(
        known,
        longer,
        path,
    ) by {
        lemma_now_remembered(run, now, answer, path);
        lemma_may_still_go(plan, known, list, answer, path);
        lemma_longer(list, answer, path);
    }
    assert forall|path: Seq<char>| #[trigger] next.left_behind.contains(path) implies had(
        known,
        longer,
        path,
    ) by {
        lemma_reasons_of_pages(plan, known, run, now, list, answer, path);
    }
    assert forall|path: Seq<char>| #[trigger] next.vanished.contains(
        path,
    ) implies plan.prune_paths.contains(path) || vanished_in(longer, path) by {
        lemma_longer(list, answer, path);
        lemma_joined(run.vanished, vanishing(answer), path);
    }
    assert forall|path: Seq<char>| #[trigger] next.outcome.pages_pruned.contains(
        path,
    ) implies may_go(plan, known, longer, path) by {
        lemma_may_still_go(plan, known, list, answer, path);
        if answer is Removed {
            lemma_pushed(run.outcome.pages_pruned, run.doomed[0], path);
            assert(run.doomed.contains(run.doomed[0]));
        }
    }
    if next.wait is Remove {
        assert forall|path: Seq<char>| #[trigger] next.doomed.contains(path) implies may_go(
            plan,
            known,
            longer,
            path,
        ) by {
            lemma_doomed_reasons(plan, known, run, now, list, answer, path);
        }
    }
    if let Wait::Write { dest, stale, .. } = next.wait {
        lemma_write_reasons(plan, known, run, now, list, answer);
    }
}

proof fn lemma_write_reasons<E>(
    plan: Plan,
    known: Written,
    run: Run,
    now: Written,
    list: Seq<DevAnswer<E>>,
    answer: DevAnswer<E>,
)
    requires
        run.orderly(),
        all_have_reasons(plan, known, run, now, list),
        answers(run.wait, answer),
        error_of(answer) is None,
        advanced(run, now, answer).wait is Write,
    ensures
        advanced(run, now, answer).wait matches Wait::Write { dest, stale, .. } ==> taken_in(
            list.push(answer),
            dest,
        ) && (stale matches Some(p) ==> had(known, list.push(answer), p)),
{
    let next = advanced(run, now, answer);
    lemma_steps(run, now, answer);
    assert(run.wait is Validate);
    if let DevAnswer::Validated(Ok(dest)) = answer {
        lemma_longer(list, answer, dest@);
        let key = run.queue[0].page.key();
        if now.moved_from(key, dest@) is Some {
            let p = now.outputs[key];
            assert(now.outputs.contains_key(key) && now.outputs[key] == p);
            assert(remembered_at(now, p));
            lemma_may_still_go(plan, known, list, answer, p);
        }
    }
}

proof fn lemma_doomed_reasons<E>(
    plan: Plan,
    known: Written,
    run: Run,
    now: Written,
    list: Seq<DevAnswer<E>>,
    answer: DevAnswer<E>,
    path: Seq<char>,
)
    requires
        run.orderly(),
        all_have_reasons(plan, known, run, now, list),
        answers(run.wait, answer),
        error_of(answer) is None,
        advanced(run, now, answer).wait is Remove,
        advanced(run, now, answer).doomed.contains(path),
        run.wait is SsrReload ==> !run.has_documents(),
    ensures
        may_go(plan, known, list.push(answer), path),
{
    let next = advanced(run, now, answer);
    lemma_steps(run, now, answer);
    lemma_longer(list, answer, path);
    lemma_may_still_go(plan, known, list, answer, path);
    if run.wait is Remove && run.doomed.len() > 1 {
        assert(next.doomed == run.doomed.drop_first());
        let i = choose|i: int| 0 <= i < next.doomed.len() && next.doomed[i] == path;
        assert(run.doomed[i + 1] == path);
        assert(run.doomed.contains(path));
    } else {
        lemma_step_plans(run, now, answer);
        if next.wait == Wait::Remove(Batch::Planned) {
        } else if next.wait == Wait::Remove(Batch::Stale) {
            assert(at_pages(next));
            lemma_unowned(leavings(next), next.live, path);
            lemma_joined(next.left_behind, next.vanished, path);
            lemma_joined(run.vanished, vanishing(answer), path);
            if next.left_behind.contains(path) {
                lemma_reasons_of_pages(plan, known, run, now, list, answer, path);
            }
        } else {
            assert(run.wait is SsrReload);
            lemma_reload_dooms(run, now, answer);
        }
    }
}

proof fn lemma_all_have_reasons<E>(
    plan: Plan,
    pages: Seq<PageId>,
    caps: DevCapabilities,
    dist_root: Seq<char>,
    known: Written,
    list: Seq<DevAnswer<E>>,
)
    requires
        plan.pages is Specific,
        goes(opened(plan, pages, caps, dist_root).begin(), known, list),
    ensures
        ({
            let (run, now) = run_after(opened(plan, pages, caps, dist_root).begin(), known, list);
            all_have_reasons(plan, known, run, now, list)
        }),
    decreases list.len(),
{
    let start = opened(plan, pages, caps, dist_root);
    let first = start.begin();
    if list.len() == 0 {
        lemma_begins(start);
        lemma_early_plans(start);
    } else {
        let init = list.drop_last();
        let answer = list.last();
        lemma_prefix(first, known, list);
        lemma_all_have_reasons(plan, pages, caps, dist_root, known, init);
        lemma_no_reload_yet(plan, pages, caps, dist_root, known, init);
        let (run, now) = run_after(first, known, init);
        lemma_reasons_go_on(plan, known, run, now, init, answer);
        assert(list =~= init.push(answer));
    }
}

/// A tick deletes nothing but what the plan deletes, what a reload reported as
/// vanished, and what was the output of a page before.
pub proof fn lemma_nothing_else_goes<E>(
    plan: Plan,
    pages: Seq<PageId>,
    caps: DevCapabilities,
    dist_root: Seq<char>,
    known: Written,
    list: Seq<DevAnswer<E>>,
    path: Seq<char>,
)
    requires
        plan.pages is Specific,
        goes(opened(plan, pages, caps, dist_root).begin(), known, list),
        ({
            let run = run_after(opened(plan, pages, caps, dist_root).begin(), known, list).0;
            run.outcome.pages_pruned.contains(path) || run.wait is Remove && run.doomed.contains(
                path,
            )
        }),
    ensures
        plan.prune_paths.contains(path) || vanished_in(list, path) || remembered_at(known, path)
            || taken_in(list, path),
{
    lemma_all_have_reasons(plan, pages, caps, dist_root, known, list);
}

/// Past the plan's own deletions only where they go with the vanished routes, or
/// where there are none.
spec fn passes(next: Run) -> bool {
    stage(next.wait) > 8 ==> next.has_documents() && !next.refresh_skipped
        || next.setup.prune_paths.len() == 0
}

proof fn lemma_planned_passes(run: Run)
    ensures
        passes(run.to_planned()),
{
    reveal(Run::to_planned);
    reveal(Run::to_commit);
    reveal(Run::committed);
    reveal(Run::to_css);
    reveal(Run::to_stale_probe);
    reveal(Run::to_ssr_probe);
    reveal(Run::to_dynamic_probe);
}

proof fn lemma_early_passes(run: Run)
    ensures
        passes(run.to_render()),
        passes(run.to_reload()),
        passes(run.to_ssr_reload()),
        passes(run.to_islands()),
        passes(run.begin()),
{
    reveal(Run::to_render);
    reveal(Run::to_reload);
    reveal(Run::to_ssr_reload);
    reveal(Run::to_islands);
    reveal(Run::begin);
    lemma_planned_passes(run);
}

proof fn lemma_remove_passes(run: Run, batch: Batch)
    requires
        batch != Batch::Planned,
    ensures
        passes(run.to_remove(batch)),
{
    reveal(Run::to_remove);
    let done = Run { publication: run.publication.paths_removed(run.removed), ..run };
    lemma_planned_passes(done);
    lemma_early_passes(done);
}

proof fn lemma_page_passes(run: Run)
    ensures
        passes(run.to_page()),
{
    reveal(Run::to_page);
    reveal(Run::to_stale);
    let list = if run.refresh_skipped {
        run.left_behind
    } else {
        run.left_behind + run.vanished
    };
    lemma_remove_passes(
        Run { doomed: unowned(list, run.live), removed: Seq::empty(), ..run },
        Batch::Stale,
    );
}

proof fn lemma_done_passes(run: Run, stale: Option<Seq<char>>, written: bool)
    ensures
        passes(run.page_done(stale, written)),
{
    reveal(Run::page_done);
    reveal(Run::left);
    reveal(Run::noted);
    let path = join_text(run.setup.dist_root, run.queue[0].output_path@);
    let done = Run { publication: run.publication.write_completed(path), ..run }.left(
        stale,
    ).noted(written);
    lemma_page_passes(Run { queue: done.queue.drop_first(), ..done });
}

proof fn lemma_step_passes<E>(run: Run, known: Written, answer: DevAnswer<E>)
    requires
        answers(run.wait, answer),
        error_of(answer) is None,
        stage(run.wait) < 8,
    ensures
        passes(advanced(run, known, answer)),
{
    match answer {
        DevAnswer::ClientScripts(Ok(changed)) => {
            reveal(Run::after_client_scripts);
            lemma_early_passes(
                Run {
                    outcome: Outcome { client_scripts_changed: changed, ..run.outcome },
                    ..run
                },
            );
        },
        DevAnswer::Islands(Ok(info)) => {
            reveal(Run::after_islands);
            lemma_early_passes(run);
            if let Some(i) = info {
                lemma_early_passes(
                    Run {
                        outcome: Outcome {
                            islands_changed: i.changed,
                            islands_bundle: Some(i),
                            ..run.outcome
                        },
                        ..run
                    },
                );
            }
        },
        DevAnswer::Reloaded(Ok(refresh)) => {
            reveal(Run::after_refresh);
            match refresh {
                RefreshOutcome::Skipped => {
                    lemma_early_passes(run);
                    lemma_early_passes(Run { refresh_skipped: true, ..run });
                },
                RefreshOutcome::Refreshed { vanished, changed_sources } => {
                    if run.wait == Wait::SsrReload {
                        lemma_remove_passes(
                            Run { doomed: texts(vanished@), removed: Seq::empty(), ..run },
                            Batch::SsrVanished,
                        );
                    } else {
                        lemma_early_passes(
                            Run {
                                narrowing: if vanished@.len() > 0 || changed_sources@.len() > 0 {
                                    unsafe_hint(run.narrowing)
                                } else {
                                    run.narrowing
                                },
                                vanished: run.vanished + texts(vanished@),
                                ..run
                            },
                        );
                    }
                },
            }
        },
        DevAnswer::Rendered(Ok(rendered)) => {
            reveal(Run::after_rendered);
            lemma_page_passes(
                Run {
                    outcome: Outcome { pages_rendered: rendered@.len(), ..run.outcome },
                    queue: rendered@,
                    ..run
                },
            );
        },
        DevAnswer::Validated(Ok(dest)) => {
            reveal(Run::after_validated);
            let owning = Run { live: run.live.push(dest@), ..run };
            lemma_done_passes(owning, known.moved_from(run.queue[0].page.key(), dest@), false);
        },
        DevAnswer::Written(_) => {
            reveal(Run::after_written);
            lemma_done_passes(run, run.wait->Write_stale, true);
        },
        DevAnswer::Removed(gone) => {
            reveal(Run::after_removed);
            let mid = Run {
                removed: if gone {
                    run.removed.push(run.doomed[0])
                } else {
                    run.removed
                },
                outcome: Outcome {
                    pages_pruned: run.outcome.pages_pruned.push(run.doomed[0]),
                    ..run.outcome
                },
                doomed: run.doomed.drop_first(),
                ..run
            };
            lemma_remove_passes(mid, run.wait->Remove_0);
        },
        _ => {},
    }
}

/// The outputs that the answer says have vanished, in order.
pub open spec fn vanished_by<E>(answer: DevAnswer<E>) -> Seq<Seq<char>> {
    match answer {
        DevAnswer::Reloaded(Ok(RefreshOutcome::Refreshed { vanished, .. })) => Seq::new(
            vanished@.len(),
            |i: int| vanished@[i]@,
        ),
        _ => Seq::empty(),
    }
}

/// The outputs that the answers say have vanished, in order.
pub open spec fn vanished_by_all<E>(list: Seq<DevAnswer<E>>) -> Seq<Seq<char>>
    decreases list.len(),
{
    if list.len() == 0 {
        Seq::empty()
    } else {
        vanished_by_all(list.drop_last()) + vanished_by(list.last())
    }
}

/// The reload found nothing changed.
pub open spec fn nothing_changed<E>(list: Seq<DevAnswer<E>>) -> bool {
    exists|i: int|
        0 <= i < list.len() && (#[trigger] list[i] matches DevAnswer::Reloaded(
            Ok(RefreshOutcome::Skipped),
        ))
}

/// What a tick deletes in all, given what its pages left behind and where they
/// are. Without pages: what has vanished, and behind it what the plan deletes.
/// With pages: what they left behind, what the plan deletes and what has vanished,
/// all but what a page of the tick owns; and where the reload found nothing
/// changed, what they left behind and do not own, and behind it what the plan
/// deletes, all of it.
pub open spec fn to_be_deleted<E>(
    plan: Plan,
    documents: bool,
    list: Seq<DevAnswer<E>>,
    left: Seq<Seq<char>>,
    live: Seq<Seq<char>>,
) -> Seq<Seq<char>> {
    if !documents {
        vanished_by_all(list) + plan.prune_paths
    } else if nothing_changed(list) {
        unowned(left, live) + plan.prune_paths
    } else {
        unowned(left + (plan.prune_paths + vanished_by_all(list)), live)
    }
}

/// What is deleted and what is left of the batch are what is to be deleted so far.
spec fn deletes<E>(plan: Plan, run: Run, list: Seq<DevAnswer<E>>) -> bool {
    let done = run.outcome.pages_pruned;
    let s = stage(run.wait);
    let v = vanished_by_all(list);
    &&& waits_fit(run)
    &&& run.setup.prune_paths == plan.prune_paths
    &&& run.has_documents() ==> run.refresh_skipped == nothing_changed(list)
    &&& run.has_documents() && s <= 7 ==> run.vanished == plan.prune_paths + v
    &&& run.has_documents() && s < 7 ==> done.len() == 0
    &&& !run.has_documents() && s < 3 ==> done.len() == 0 && v.len() == 0
    &&& s == 3 ==> done + run.doomed == v
    &&& !run.has_documents() && 3 < s < 8 ==> done == v
    &&& s == 7 ==> done + run.doomed == unowned(leavings(run), run.live)
    &&& s == 8 ==> done + run.doomed == to_be_deleted(
        plan,
        run.has_documents(),
        list,
        run.left_behind,
        run.live,
    )
    &&& s > 8 ==> done == to_be_deleted(
        plan,
        run.has_documents(),
        list,
        run.left_behind,
        run.live,
    )
}

proof fn lemma_vanished_by<E>(list: Seq<DevAnswer<E>>, answer: DevAnswer<E>)
    ensures
        vanished_by(answer) == vanishing(answer),
        vanished_by_all(list.push(answer)) == vanished_by_all(list) + vanishing(answer),
        !(answer is Reloaded) ==> vanished_by_all(list.push(answer)) == vanished_by_all(list),
        nothing_changed(list.push(answer)) <==> nothing_changed(list) || (answer matches
            DevAnswer::Reloaded(Ok(RefreshOutcome::Skipped))),
{
    let longer = list.push(answer);
    assert(longer.drop_last() =~= list);
    assert(vanished_by(answer) =~= vanishing(answer));
    assert(longer[list.len() as int] == answer);
    if !(answer is Reloaded) {
        assert(vanished_by_all(list) + vanishing(answer) =~= vanished_by_all(list));
    }
    if nothing_changed(list) {
        let i = choose|i: int|
            0 <= i < list.len() && (#[trigger] list[i] matches DevAnswer::Reloaded(
                Ok(RefreshOutcome::Skipped),
            ));
        assert(longer[i] == list[i]);
    }
    if nothing_changed(longer) {
        let i = choose|i: int|
            0 <= i < longer.len() && (#[trigger] longer[i] matches DevAnswer::Reloaded(
                Ok(RefreshOutcome::Skipped),
            ));
        if i < list.len() {
            assert(list[i] == longer[i]);
        }
    }
}

/// The first of what is at hand goes from one list to the other.
proof fn lemma_moved_over(done: Seq<Seq<char>>, doomed: Seq<Seq<char>>)
    requires
        doomed.len() > 0,
    ensures
        done.push(doomed[0]) + doomed.drop_first() == done + doomed,
        doomed.len() == 1 ==> done.push(doomed[0]) == done + doomed,
{
    assert(done.push(doomed[0]) + doomed.drop_first() =~= done + doomed);
    if doomed.len() == 1 {
        assert(done.push(doomed[0]) =~= done + doomed);
    }
}

proof fn lemma_deletes_early<E>(
    plan: Plan,
    run: Run,
    known: Written,
    list: Seq<DevAnswer<E>>,
    answer: DevAnswer<E>,
)
    requires
        run.orderly(),
        deletes(plan, run, list),
        answers(run.wait, answer),
        error_of(answer) is None,
        stage(run.wait) < 5,
        !(run.wait is Remove),
        run.wait is ClientScripts || run.wait is Islands || run.wait is SsrReload
            || run.wait is Reload ==> vanished_by_all(list).len() == 0 && !nothing_changed(list),
    ensures
        deletes(plan, advanced(run, known, answer), list.push(answer)),
{
    let next = advanced(run, known, answer);
    let longer = list.push(answer);
    lemma_steps(run, known, answer);
    crate::pipeline::dev_laws::lemma_tick_goes_forward(run, known, answer);
    assert(stepped(run, known, answer) == next);
    lemma_vanished_by(list, answer);
    lemma_step_plans(run, known, answer);
    lemma_step_passes(run, known, answer);
    let v = vanished_by_all(list);
    assert(v =~= Seq::empty());
    assert(v + vanishing(answer) =~= vanishing(answer));
    assert(plan.prune_paths + vanishing(answer) =~= plan.prune_paths + (v + vanishing(answer)));
    assert(plan.prune_paths + v =~= plan.prune_paths);
    let done = run.outcome.pages_pruned;
    assert(done =~= Seq::empty());
    assert(done + plan.prune_paths =~= plan.prune_paths);
    assert(Seq::<Seq<char>>::empty() + plan.prune_paths =~= plan.prune_paths);
    if run.wait is SsrReload {
        if vanishing(answer).len() > 0 {
            lemma_reload_dooms(run, known, answer);
            assert(done + vanishing(answer) =~= vanishing(answer));
        } else {
            assert(vanishing(answer) =~= Seq::empty());
        }
    }
    if !run.has_documents() && stage(next.wait) > 8 {
        assert(vanished_by_all(longer) + plan.prune_paths =~= Seq::<Seq<char>>::empty());
    }
    if !run.has_documents() && stage(next.wait) == 8 {
        assert(vanished_by_all(longer) + plan.prune_paths =~= plan.prune_paths);
    }
}

proof fn lemma_deletes_pages<E>(
    plan: Plan,
    run: Run,
    known: Written,
    list: Seq<DevAnswer<E>>,
    answer: DevAnswer<E>,
)
    requires
        run.orderly(),
        deletes(plan, run, list),
        answers(run.wait, answer),
        error_of(answer) is None,
        run.wait is Render || run.wait is Validate || run.wait is Write,
    ensures
        deletes(plan, advanced(run, known, answer), list.push(answer)),
{
    let next = advanced(run, known, answer);
    lemma_steps(run, known, answer);
    crate::pipeline::dev_laws::lemma_tick_goes_forward(run, known, answer);
    assert(stepped(run, known, answer) == next);
    lemma_vanished_by(list, answer);
    lemma_step_plans(run, known, answer);
    lemma_step_passes(run, known, answer);
    let done = run.outcome.pages_pruned;
    assert(done =~= Seq::empty());
    let stale = unowned(leavings(next), next.live);
    assert(done + stale =~= stale);
    assert(done + plan.prune_paths =~= plan.prune_paths);
    if next.queue.len() == 0 && !(next.wait is Write) && stale.len() == 0 {
        assert(stale =~= Seq::empty());
        assert(stale + plan.prune_paths =~= plan.prune_paths);
        if next.wait == Wait::Remove(Batch::Planned) {
            assert(next.refresh_skipped) by {
                lemma_planned_only_skipped(run, known, answer);
            }
        }
        if stage(next.wait) > 8 && next.refresh_skipped {
            assert(plan.prune_paths =~= Seq::empty());
        }
    }
}

/// A tick with pages comes to the plan's own deletions only where the reload found
/// nothing changed.
proof fn lemma_planned_only_skipped<E>(run: Run, known: Written, answer: DevAnswer<E>)
    requires
        run.orderly(),
        answers(run.wait, answer),
        error_of(answer) is None,
        run.has_documents(),
        advanced(run, known, answer).wait == Wait::Remove(Batch::Planned),
    ensures
        advanced(run, known, answer).refresh_skipped,
{
    crate::pipeline::dev_laws::lemma_tick_goes_forward(run, known, answer);
    let next = advanced(run, known, answer);
    assert(stepped(run, known, answer) == next);
    assert(next.orderly());
    assert(!next.routes_take_plan());
}

proof fn lemma_deletes_removal<E>(
    plan: Plan,
    run: Run,
    known: Written,
    list: Seq<DevAnswer<E>>,
    answer: DevAnswer<E>,
)
    requires
        run.orderly(),
        deletes(plan, run, list),
        answers(run.wait, answer),
        answer is Removed,
    ensures
        deletes(plan, advanced(run, known, answer), list.push(answer)),
{
    let next = advanced(run, known, answer);
    lemma_steps(run, known, answer);
    crate::pipeline::dev_laws::lemma_tick_goes_forward(run, known, answer);
    assert(stepped(run, known, answer) == next);
    lemma_vanished_by(list, answer);
    let done = run.outcome.pages_pruned;
    lemma_moved_over(done, run.doomed);
    if run.wait != Wait::Remove(Batch::Planned) {
        lemma_step_passes(run, known, answer);
    }
    if run.doomed.len() <= 1 {
        lemma_step_plans(run, known, answer);
        if run.has_documents() && next.wait == Wait::Remove(Batch::Planned) {
            lemma_planned_only_skipped(run, known, answer);
        }
        let all = next.outcome.pages_pruned;
        if stage(next.wait) > 8 && plan.prune_paths.len() == 0 {
            assert(all + plan.prune_paths =~= all);
        }
    }
}

proof fn lemma_deletes<E>(
    plan: Plan,
    pages: Seq<PageId>,
    caps: DevCapabilities,
    dist_root: Seq<char>,
    known: Written,
    list: Seq<DevAnswer<E>>,
)
    requires
        plan.pages is Specific,
        goes(opened(plan, pages, caps, dist_root).begin(), known, list),
    ensures
        deletes(
            plan,
            run_after(opened(plan, pages, caps, dist_root).begin(), known, list).0,
            list,
        ),
    decreases list.len(),
{
    let start = opened(plan, pages, caps, dist_root);
    let first = start.begin();
    if list.len() == 0 {
        lemma_begins(start);
        lemma_early_plans(start);
        lemma_early_passes(start);
        assert(plan.prune_paths + vanished_by_all(list) =~= plan.prune_paths);
        assert(start.outcome.pages_pruned + plan.prune_paths =~= plan.prune_paths);
        assert(vanished_by_all(list) + plan.prune_paths =~= plan.prune_paths);
        if plan.prune_paths.len() == 0 {
            assert(start.outcome.pages_pruned =~= plan.prune_paths);
        }
        crate::pipeline::dev_laws::lemma_tick_begins(plan, pages, caps, dist_root);
    } else {
        let init = list.drop_last();
        let answer = list.last();
        lemma_prefix(first, known, list);
        lemma_deletes(plan, pages, caps, dist_root, known, init);
        lemma_no_reload_yet(plan, pages, caps, dist_root, known, init);
        let (run, k) = run_after(first, known, init);
        assert(list =~= init.push(answer));
        if run.wait is ClientScripts || run.wait is Islands || run.wait is SsrReload
            || run.wait is Reload {
            lemma_none_vanished(init);
            lemma_deletes_early(plan, run, k, init, answer);
        } else if run.wait is Remove {
            lemma_deletes_removal(plan, run, k, init, answer);
        } else if run.wait is Render || run.wait is Validate || run.wait is Write {
            lemma_deletes_pages(plan, run, k, init, answer);
        } else {
            lemma_steps(run, k, answer);
            lemma_vanished_by(init, answer);
        }
    }
}

proof fn lemma_none_vanished<E>(list: Seq<DevAnswer<E>>)
    requires
        forall|i: int| 0 <= i < list.len() ==> !(#[trigger] list[i] is Reloaded),
    ensures
        vanished_by_all(list).len() == 0,
        !nothing_changed(list),
    decreases list.len(),
{
    if list.len() > 0 {
        let init = list.drop_last();
        assert forall|i: int| 0 <= i < init.len() implies !(#[trigger] init[i] is Reloaded) by {
            assert(init[i] == list[i]);
        }
        lemma_none_vanished(init);
        assert(list[list.len() - 1] == list.last());
    }
}

/// What a tick has deleted when it has come to its end is exactly what is to be
/// deleted, in this order, and nothing twice on two accounts.
pub proof fn lemma_what_a_tick_deletes<E>(
    plan: Plan,
    pages: Seq<PageId>,
    caps: DevCapabilities,
    dist_root: Seq<char>,
    known: Written,
    list: Seq<DevAnswer<E>>,
)
    requires
        plan.pages is Specific,
        goes(opened(plan, pages, caps, dist_root).begin(), known, list),
        run_after(opened(plan, pages, caps, dist_root).begin(), known, list).0.wait is Finished,
    ensures
        ({
            let run = run_after(opened(plan, pages, caps, dist_root).begin(), known, list).0;
            let pruned = run.outcome.pages_pruned;
            &&& pages.len() == 0 ==> pruned == vanished_by_all(list) + plan.prune_paths
            &&& pages.len() > 0 && nothing_changed(list) ==> pruned == unowned(
                run.left_behind,
                run.live,
            ) + plan.prune_paths
            &&& pages.len() > 0 && !nothing_changed(list) ==> pruned == unowned(
                run.left_behind + (plan.prune_paths + vanished_by_all(list)),
                run.live,
            )
        }),
{
    lemma_deletes(plan, pages, caps, dist_root, known, list);
    lemma_no_reload_yet(plan, pages, caps, dist_root, known, list);
}

/// What no page owns of a list: each of its paths, in order, but for those that
/// are where a page is, however they are spelled.
pub proof fn lemma_what_no_page_owns(
    list: Seq<Seq<char>>,
    live: Seq<Seq<char>>,
    path: Seq<char>,
)
    ensures
        unowned(Seq::empty(), live).len() == 0,
        unowned(list.push(path), live) == if (exists|i: int|
            0 <= i < live.len() && parts(#[trigger] live[i]) == parts(path)) {
            unowned(list, live)
        } else {
            unowned(list, live).push(path)
        },
{
    assert(list.push(path).drop_last() =~= list);
}

} // verus!
