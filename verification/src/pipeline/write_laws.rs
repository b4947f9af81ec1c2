//! What a tick and a request write, and what is remembered of it.

use vstd::prelude::*;

use crate::path::{parts, Part};
use crate::pipeline::cache::Written;
use crate::pipeline::dev::{acts, answers, error_of, remembered, stepped, DevAction, DevAnswer, Run};
use crate::pipeline::dev_pipeline::DevAssetPipeline;
use crate::pipeline::publication::{Event, Fallback, Publication};
use crate::pipeline::request::{
    GuardedWriteOutcome, Request, RequestAnswer, RequestMode, RequestWait, RequestWriteOutcome,
};
use crate::pipeline::walk::{lemma_steps, waits_fit};
use crate::pipeline::BuildContext;

verus! {

/// What a tick asks for at each place where it can stand. It renders its own
/// pages with its own hint, has each page looked at where that page wants to be,
/// writes what it waits for, and deletes what is to be deleted next.
pub proof fn lemma_what_a_tick_asks_for(run: Run, action: DevAction)
    requires
        acts(run, action),
    ensures
        action is RunClientScripts <==> run.wait is ClientScripts,
        action is RunIslands <==> run.wait is Islands,
        action is Reload <==> run.wait is Reload || run.wait is SsrReload,
        action is Render <==> run.wait is Render,
        action matches DevAction::Render { pages, narrowing } ==> {
            &&& pages@ == run.setup.pages
            &&& narrowing is Some <==> run.narrowing is Some
            &&& narrowing matches Some(n) ==> n.fan_out_safe == (run.narrowing->0).fan_out_safe
                && n.changed_content@.len() == (run.narrowing->0).changed_content.len()
                && forall|k: int|
                0 <= k < n.changed_content@.len() ==> (#[trigger] n.changed_content@[k])@ == (
                run.narrowing->0).changed_content[k]
        },
        action is Validate <==> run.wait is Validate,
        action matches DevAction::Validate { page, dist_root, output_path } ==> {
            &&& page == run.queue[0].page
            &&& dist_root@ == run.setup.dist_root
            &&& output_path@ == run.queue[0].output_path@
        },
        action is Write <==> run.wait is Write,
        action matches DevAction::Write { dest, bytes } ==> dest@ == run.wait->Write_dest && bytes@
            == run.wait->Write_bytes,
        action is Remove <==> run.wait is Remove,
        action matches DevAction::Remove { path } ==> path@ == run.doomed[0],
        action is CollectFallbacks <==> run.wait is Fallbacks,
        action is RunCss <==> run.wait is Css,
        action is ProbeStale <==> run.wait is Stale,
        action is ProbeSsr <==> run.wait is Ssr,
        action is ProbeDynamic <==> run.wait is Dynamic,
        action is Finish <==> run.wait is Finished,
{
    if let DevAction::Render { pages, narrowing } = action {
        if let Some(n) = narrowing {
            let list = crate::plan::texts(n.changed_content@);
            assert(list == (run.narrowing->0).changed_content);
            assert(list.len() == n.changed_content@.len());
            assert forall|k: int| 0 <= k < n.changed_content@.len() implies (
            #[trigger] n.changed_content@[k])@ == (run.narrowing->0).changed_content[k] by {
                assert(list[k] == n.changed_content@[k]@);
            }
        }
    }
}

/// A page is written exactly where other bytes, or none, are remembered at its
/// path: then its own bytes, to that path. Where the same bytes are there it
/// counts as done at once, and is remembered to be there. What the page leaves
/// behind is where it was remembered, if that is another path.
pub proof fn lemma_page_is_written_where_it_differs<E>(run: Run, known: Written, dest: String)
    requires
        run.orderly(),
        waits_fit(run),
        run.wait is Validate,
    ensures
        ({
            let answer = DevAnswer::<E>::Validated(Ok(dest));
            let next = stepped(run, known, answer);
            let later = remembered(run, known, answer);
            let page = run.queue[0];
            let bytes = vstd::utf8::encode_utf8(page.html@);
            let there = known.bytes.contains_key(parts(dest@)) && known.bytes[parts(dest@)]
                == bytes;
            let key = page.page.key();
            let moved = known.outputs.contains_key(key) && parts(known.outputs[key]) != parts(
                dest@,
            );
            &&& next.wait is Write <==> !there
            &&& next.live == run.live.push(dest@)
            &&& !there ==> {
                &&& next.wait->Write_dest == dest@
                &&& next.wait->Write_bytes == bytes
                &&& next.wait->Write_stale == if moved {
                    Some(known.outputs[key])
                } else {
                    None
                }
                &&& next.queue == run.queue
                &&& next.left_behind == run.left_behind
                &&& later == known
            }
            &&& there ==> {
                &&& next.queue == run.queue.drop_first()
                &&& next.left_behind == if moved {
                    run.left_behind.push(known.outputs[key])
                } else {
                    run.left_behind
                }
                &&& later.outputs.contains_key(key) && later.outputs[key] == dest@
                &&& later.bytes == known.bytes
            }
            &&& next.outcome.pages_written == run.outcome.pages_written
        }),
{
    lemma_steps(run, known, DevAnswer::<E>::Validated(Ok(dest)));
    reveal(Run::known_after_validated);
}

/// Once a page is written, its bytes are remembered at the path, and that the
/// page is there; it is reported as written, and the next one comes. A write that
/// failed is not remembered, and ends the tick.
pub proof fn lemma_written_is_remembered<E>(run: Run, known: Written, error: E, p: Seq<Part>)
    requires
        run.orderly(),
        waits_fit(run),
        run.wait is Write,
    ensures
        ({
            let done = DevAnswer::<E>::Written(Ok(()));
            let next = stepped(run, known, done);
            let later = remembered(run, known, done);
            let dest = run.wait->Write_dest;
            let key = run.queue[0].page.key();
            &&& later.bytes.contains_key(parts(dest)) && later.bytes[parts(dest)]
                == run.wait->Write_bytes
            &&& later.outputs.contains_key(key) && later.outputs[key] == dest
            &&& p != parts(dest) ==> later.bytes.contains_key(p) == known.bytes.contains_key(p) && (
            known.bytes.contains_key(p) ==> later.bytes[p] == known.bytes[p])
            &&& p != key ==> later.outputs.contains_key(p) == known.outputs.contains_key(p) && (
            known.outputs.contains_key(p) ==> later.outputs[p] == known.outputs[p])
            &&& next.outcome.pages_written == run.outcome.pages_written.push(run.queue[0].page)
            &&& next.queue == run.queue.drop_first()
            &&& next.left_behind == match run.wait->Write_stale {
                Some(path) => run.left_behind.push(path),
                None => run.left_behind,
            }
            &&& stepped(run, known, DevAnswer::Written(Err(error))).wait is Finished
            &&& stepped(run, known, DevAnswer::Written(Err(error))).outcome == run.outcome
        }),
{
    lemma_steps(run, known, DevAnswer::<E>::Written(Ok(())));
    reveal(Run::known_after_written);
}

/// Whether or not the file could be deleted, nothing is remembered of its path
/// any more, and everything is of the others; and the deletion is reported. No
/// other answer makes a tick forget anything.
pub proof fn lemma_deleted_is_forgotten<E>(
    run: Run,
    known: Written,
    answer: DevAnswer<E>,
    p: Seq<Part>,
)
    requires
        answers(run.wait, answer),
        error_of(answer) is None,
        run.orderly(),
        waits_fit(run),
    ensures
        ({
            let later = remembered(run, known, answer);
            &&& answer is Removed ==> {
                &&& !later.bytes.contains_key(parts(run.doomed[0]))
                &&& later.outputs.contains_key(p) <==> known.outputs.contains_key(p) && parts(
                    known.outputs[p],
                ) != parts(run.doomed[0])
                &&& later.outputs.contains_key(p) ==> later.outputs[p] == known.outputs[p]
                &&& p != parts(run.doomed[0]) ==> later.bytes.contains_key(p)
                    == known.bytes.contains_key(p)
                &&& later.bytes.contains_key(p) ==> later.bytes[p] == known.bytes[p]
                &&& stepped(run, known, answer).outcome.pages_pruned
                    == run.outcome.pages_pruned.push(run.doomed[0])
            }
            &&& !(answer is Removed) ==> {
                &&& known.bytes.contains_key(p) ==> later.bytes.contains_key(p)
                &&& known.outputs.contains_key(p) ==> later.outputs.contains_key(p)
            }
            &&& !(answer is Removed) && !(answer is Written) && !(answer is Validated) ==> later
                == known
        }),
{
    reveal(Run::known_after_validated);
    reveal(Run::known_after_written);
    lemma_steps(run, known, answer);
}

/// A cache that remembers nothing has everything written; what is remembered of a
/// page is where it was, unless that is where it is put now.
pub proof fn lemma_what_a_cache_says(
    known: Written,
    dest: Seq<char>,
    bytes: Seq<u8>,
    page: Seq<Part>,
)
    ensures
        Written::nothing().differs(dest, bytes),
        Written::nothing().moved_from(page, dest) is None,
        known.differs(dest, bytes) <==> !known.bytes.contains_key(parts(dest))
            || known.bytes[parts(dest)] != bytes,
        known.moved_from(page, dest) is Some <==> known.outputs.contains_key(page) && parts(
            known.outputs[page],
        ) != parts(dest),
        known.moved_from(page, dest) matches Some(p) ==> p == known.outputs[page],
        known.with_page(page, dest).moved_from(page, dest) is None,
        known.with_page(page, dest).bytes == known.bytes,
        known.with_bytes(dest, bytes).outputs == known.outputs,
{
}

/// A request-time write says in the end whether it wrote: it did exactly where
/// other bytes, or none, are remembered at the path. Where something is to be
/// called after the write, that comes in between, and learns the same.
pub proof fn lemma_request_tells_what_it_did(request: Request, known: Written, dest: String)
    requires
        request.wait is Validate,
    ensures
        ({
            let looked = request.after(known, RequestAnswer::<()>::Validated(Ok(dest)));
            let wrote = !(known.bytes.contains_key(parts(dest@)) && known.bytes[parts(dest@)]
                == request.bytes);
            let placed = if wrote {
                looked.after(known, RequestAnswer::<()>::Written(Ok(())))
            } else {
                looked
            };
            let end = if request.mode.finalized {
                placed.after(known, RequestAnswer::<()>::Finalized)
            } else {
                placed
            };
            &&& looked.wait is Write <==> wrote
            &&& wrote ==> looked.wait->Write_dest == dest@
            &&& request.mode.finalized ==> placed.wait == (RequestWait::AfterWrite {
                written: wrote,
            })
            &&& end.wait == RequestWait::Done(
                GuardedWriteOutcome::Written(RequestWriteOutcome { written: wrote }),
            )
            &&& end.bytes == request.bytes
            &&& end.mode == request.mode
            &&& end.dist_root == request.dist_root
            &&& end.output_path == request.output_path
        }),
{
}

/// A request-time write begins with its guard where it has one, and with its path
/// otherwise. A path that is refused, like a write that fails, ends it, and
/// nothing is remembered of it.
pub proof fn lemma_request_begins_and_fails<E>(
    mode: RequestMode,
    dist_root: Seq<char>,
    output_path: Seq<char>,
    bytes: Seq<u8>,
    known: Written,
    error: E,
)
    ensures
        ({
            let first = Request::opened(mode, dist_root, output_path, bytes);
            let refused = RequestAnswer::<E>::Validated(Err(error));
            let failed = RequestAnswer::<E>::Written(Err(error));
            &&& first.wait is Revalidate <==> mode.guarded
            &&& first.wait is Validate <==> !mode.guarded
            &&& first.mode == mode
            &&& first.dist_root == dist_root
            &&& first.output_path == output_path
            &&& first.bytes == bytes
            &&& first.after(known, refused).wait is Failed
            &&& first.known_after(known, refused) == known
            &&& first.after(known, failed).wait is Failed
            &&& first.known_after(known, failed) == known
        }),
{
}

/// The steps of a publication: each says what it is about, a document is touched
/// only after the publication says so, and how it ends follows from whether one
/// was.
pub proof fn lemma_publication_says(
    p: Publication,
    path: Seq<char>,
    paths: Seq<Seq<char>>,
    event: Event,
)
    ensures
        Publication::start(true).log == seq![Event::Begin],
        Publication::start(true).fallback == Fallback::Abort,
        Publication::start(true).begun,
        Publication::start(false).log.len() == 0,
        Publication::start(false).fallback == Fallback::Settled,
        !Publication::start(false).begun,
        p.mutation_started().fallback != Fallback::Abort,
        p.fallback == Fallback::Abort ==> p.mutation_started().log == p.log.push(
            Event::DocumentMutationStarted,
        ),
        p.fallback != Fallback::Abort ==> p.mutation_started() == p,
        p.write_started(path).log == p.mutation_started().log.push(
            Event::DocumentWriteStarted(path),
        ),
        p.write_started(path).fallback == p.mutation_started().fallback,
        p.write_completed(path).log == p.log.push(Event::DocumentWriteCompleted(path)),
        p.write_completed(path).fallback == p.fallback,
        paths.len() > 0 ==> p.paths_removed(paths).log == p.log.push(
            Event::DocumentPathsRemoved(paths),
        ),
        paths.len() == 0 ==> p.paths_removed(paths) == p,
        p.committed(event).log == p.log.push(event),
        p.committed(event).fallback == Fallback::Settled,
        p.fallback == Fallback::Abort ==> p.closed().log == p.log.push(
            Event::AbortBeforeDocumentWrite,
        ),
        p.fallback == Fallback::Pending ==> p.closed().log == p.log.push(Event::LeavePending),
        p.fallback == Fallback::Settled ==> p.closed().log == p.log,
        p.closed().fallback == Fallback::Settled,
{
}

/// What can be called in a tick is what the pipeline and the context hold;
/// fallbacks are collected only where someone is told of them.
pub proof fn lemma_what_can_be_called<
    Stale,
    Ssr,
    Dynamic,
    Fallbacks,
    Hook,
    Render,
    Css,
    Islands,
    Scripts,
    Reload,
>(
    pipeline: DevAssetPipeline<Stale, Ssr, Dynamic, Fallbacks, Hook>,
    ctx: BuildContext<Render, Css, Islands, Scripts, Reload>,
)
    ensures
        pipeline.caps(ctx).reload <==> ctx.reload_renderer is Some,
        pipeline.caps(ctx).css <==> ctx.run_css is Some,
        pipeline.caps(ctx).islands <==> ctx.run_islands is Some,
        pipeline.caps(ctx).client_scripts <==> ctx.run_client_scripts is Some,
        pipeline.caps(ctx).stale <==> pipeline.stale_probe is Some,
        pipeline.caps(ctx).ssr <==> pipeline.ssr_publish_probe is Some,
        pipeline.caps(ctx).dynamic <==> pipeline.dynamic_injected_probe is Some,
        pipeline.caps(ctx).fallbacks <==> pipeline.lazy_fallback_probe is Some
            && pipeline.document_publication_hook is Some,
{
}

} // verus!
