//! What whole ticks do, from the first answer to the last: what they leave
//! behind, what a tick does that finds everything in place, and what becomes of
//! an output that its page has moved away from.

use vstd::prelude::*;

use crate::page::{lemma_set_is_listed, PageId};
use crate::path::{parts, Part};
use crate::pipeline::cache::Written;
use crate::pipeline::dev::{
    answers, bytes_of, error_of, opened, owned, unowned, Batch, DevAnswer, DevCapabilities, Run,
    Wait,
};
use crate::pipeline::dev_laws::{lemma_tick_goes_forward, stage};
use crate::pipeline::disk_laws::{faithful, lemma_pages_stay_on_disk, lemma_scene_begins, Scene};
use crate::pipeline::walk::{
    deals, leavings, lemma_begins, lemma_steps, stale_at, turns, vanishing, with_stale,
};
use crate::pipeline::request::{Request, RequestAnswer, RequestWait};
use crate::pipeline::RenderedPage;
use crate::plan::{Plan, RebuildPlan};

verus! {

/// A page that a tick renders: whose it is, what it shows and where it is put.
pub struct Document {
    pub key: Seq<Part>,
    pub bytes: Seq<u8>,
    pub dest: Seq<Part>,
}

/// The rendered page is this document.
pub open spec fn shows(page: RenderedPage, document: Document) -> bool {
    page.page.key() == document.key && bytes_of(page.html@) == document.bytes
}

/// The rendered pages are these documents, in order.
pub open spec fn show(list: Seq<RenderedPage>, documents: Seq<Document>) -> bool {
    &&& list.len() == documents.len()
    &&& forall|i: int| 0 <= i < list.len() ==> shows(#[trigger] list[i], documents[i])
}

/// The answer is no error, and goes with a tick that renders these documents.
pub open spec fn fits<E>(documents: Seq<Document>, scene: Scene, answer: DevAnswer<E>) -> bool {
    &&& answers(scene.run.wait, answer)
    &&& error_of(answer) is None
    &&& match answer {
        DevAnswer::Rendered(Ok(rendered)) => show(rendered@, documents),
        DevAnswer::Validated(Ok(dest)) => parts(dest@) == documents[scene.done as int].dest,
        _ => true,
    }
}

/// Where a tick starts.
pub open spec fn started(
    plan: Plan,
    pages: Seq<PageId>,
    caps: DevCapabilities,
    dist_root: Seq<char>,
    known: Written,
    disk: Map<Seq<Part>, Seq<u8>>,
) -> Scene {
    Scene {
        run: opened(plan, pages, caps, dist_root).begin(),
        known,
        disk,
        shown: Map::empty(),
        done: 0,
    }
}

/// Where a tick starts that carries out the plan: it renders the pages that the
/// plan names.
pub open spec fn begun_by(
    plan: RebuildPlan,
    caps: DevCapabilities,
    dist_root: Seq<char>,
    known: Written,
    disk: Map<Seq<Part>, Seq<u8>>,
) -> Scene {
    started(plan@, plan.pages.listed(), caps, dist_root, known, disk)
}

/// Where a tick stands after these answers.
pub open spec fn played<E>(scene: Scene, list: Seq<DevAnswer<E>>) -> Scene
    decreases list.len(),
{
    if list.len() == 0 {
        scene
    } else {
        played(scene, list.drop_last()).after(list.last())
    }
}

/// The answers are, one after another, those of a tick that renders these
/// documents without an error.
pub open spec fn follow<E>(
    documents: Seq<Document>,
    scene: Scene,
    list: Seq<DevAnswer<E>>,
) -> bool {
    forall|i: int|
        0 <= i < list.len() ==> fits(
            documents,
            played(scene, #[trigger] list.take(i)),
            list[i],
        )
}

/// No two documents are put at the same path.
pub open spec fn apart(documents: Seq<Document>) -> bool {
    forall|i: int, j: int|
        0 <= i < j < documents.len() ==> (#[trigger] documents[i]).dest != (
        #[trigger] documents[j]).dest
}

/// The pages of the tick are known.
spec fn begun(run: Run) -> bool {
    run.has_documents() && stage(run.wait) >= 6
}

/// The tick stands where these documents have brought it.
spec fn on_course(documents: Seq<Document>, scene: Scene) -> bool {
    let run = scene.run;
    let done = scene.done as int;
    let placing: int = if run.wait is Write {
        1
    } else {
        0
    };
    if begun(run) {
        &&& run.outcome.pages_rendered == documents.len()
        &&& done + run.queue.len() == documents.len()
        &&& show(run.queue, documents.skip(done))
        &&& run.live.len() == done + placing
        &&& forall|i: int|
            0 <= i < run.live.len() ==> parts(#[trigger] run.live[i]) == documents[i].dest
        &&& stage(run.wait) > 6 ==> run.queue.len() == 0
        &&& stage(run.wait) == 6 ==> run.queue.len() > 0 && run.outcome.pages_pruned.len() == 0
        &&& run.wait matches Wait::Write { dest, bytes, stale } ==> {
            &&& parts(dest) == documents[done].dest
            &&& bytes == documents[done].bytes
            &&& stale == scene.known.moved_from(documents[done].key, dest)
        }
    } else {
        &&& run.outcome.pages_rendered == 0
        &&& run.outcome.pages_written.len() == 0
        &&& run.queue.len() == 0
        &&& run.live.len() == 0
        &&& run.left_behind.len() == 0
        &&& done == 0
        &&& run.has_documents() ==> run.outcome.pages_pruned.len() == 0
    }
}

/// The first page of the queue is the first document that is not done with.
proof fn lemma_first_of_queue(documents: Seq<Document>, scene: Scene)
    requires
        on_course(documents, scene),
        begun(scene.run),
        scene.run.queue.len() > 0,
    ensures
        0 <= scene.done < documents.len(),
        shows(scene.run.queue[0], documents[scene.done as int]),
        show(scene.run.queue.drop_first(), documents.skip(scene.done as int + 1)),
{
    let run = scene.run;
    let done = scene.done as int;
    let rest = run.queue.drop_first();
    assert(shows(run.queue[0], documents.skip(done)[0]));
    assert(documents.skip(done)[0] == documents[done]);
    assert forall|i: int| 0 <= i < rest.len() implies shows(
        #[trigger] rest[i],
        documents.skip(done + 1)[i],
    ) by {
        assert(shows(run.queue[i + 1], documents.skip(done)[i + 1]));
    }
}

/// Every answer keeps a tick on the course that its documents give it.
proof fn lemma_stays_on_course<E>(documents: Seq<Document>, scene: Scene, answer: DevAnswer<E>)
    requires
        scene.in_order(),
        on_course(documents, scene),
        fits(documents, scene, answer),
    ensures
        scene.after(answer).in_order(),
        on_course(documents, scene.after(answer)),
        deals(scene.run, scene.known, answer, scene.after(answer).run),
        turns(scene.run, scene.known, answer, scene.after(answer).run),
        scene.placed(answer) is Some ==> stale_at(scene.run, scene.known, answer)
            == scene.known.moved_from(
            documents[scene.done as int].key,
            scene.placed(answer)->0,
        ),
{
    lemma_pages_stay_on_disk(scene, answer);
    lemma_steps(scene.run, scene.known, answer);
    lemma_tick_goes_forward(scene.run, scene.known, answer);
    match answer {
        DevAnswer::Rendered(_) => {
            assert(documents.skip(0) =~= documents);
        },
        DevAnswer::Validated(_) => {
            reveal(Run::known_after_validated);
            lemma_first_of_queue(documents, scene);
        },
        DevAnswer::Written(_) => {
            lemma_first_of_queue(documents, scene);
        },
        _ => {},
    }
}

proof fn lemma_starts_on_course(
    documents: Seq<Document>,
    plan: Plan,
    pages: Seq<PageId>,
    caps: DevCapabilities,
    dist_root: Seq<char>,
    known: Written,
    disk: Map<Seq<Part>, Seq<u8>>,
)
    requires
        plan.pages is Specific,
        plan.prune_paths.len() > 0 ==> plan.renderer_fresh,
        faithful(known, disk),
    ensures
        ({
            let scene = started(plan, pages, caps, dist_root, known, disk);
            &&& scene.in_order()
            &&& on_course(documents, scene)
            &&& !begun(scene.run)
            &&& scene.run.setup == opened(plan, pages, caps, dist_root).setup
            &&& scene.run.vanished == plan.prune_paths
            &&& scene.run.outcome.pages_pruned.len() == 0
            &&& !(scene.run.wait is Write)
            &&& plan.prune_paths.len() == 0 ==> !(scene.run.wait is Remove)
        }),
{
    lemma_scene_begins(plan, pages, caps, dist_root, known, disk);
    lemma_begins(opened(plan, pages, caps, dist_root));
}

proof fn lemma_follow_step<E>(documents: Seq<Document>, scene: Scene, list: Seq<DevAnswer<E>>)
    requires
        follow(documents, scene, list),
        list.len() > 0,
    ensures
        follow(documents, scene, list.drop_last()),
        fits(documents, played(scene, list.drop_last()), list.last()),
{
    let init = list.drop_last();
    assert(list.take(list.len() - 1) =~= init);
    assert forall|i: int| 0 <= i < init.len() implies fits(
        documents,
        played(scene, #[trigger] init.take(i)),
        init[i],
    ) by {
        assert(init.take(i) =~= list.take(i));
    }
}

/// Some document is put at this path.
pub open spec fn is_dest(documents: Seq<Document>, path: Seq<Part>) -> bool {
    exists|i: int| 0 <= i < documents.len() && (#[trigger] documents[i]).dest == path
}

/// What is remembered of the document: its bytes, at its path, and that its page
/// has some document's path.
pub open spec fn remembers(known: Written, documents: Seq<Document>, document: Document) -> bool {
    &&& known.bytes.contains_key(document.dest)
    &&& known.bytes[document.dest] == document.bytes
    &&& known.outputs.contains_key(document.key)
    &&& is_dest(documents, parts(known.outputs[document.key]))
}

/// The first `n` documents are remembered.
spec fn remembers_first(known: Written, documents: Seq<Document>, n: int) -> bool {
    forall|i: int| 0 <= i < n ==> remembers(known, documents, #[trigger] documents[i])
}

/// Putting a page in place keeps what is remembered of the documents.
proof fn lemma_remembers_placed(
    known: Written,
    documents: Seq<Document>,
    n: int,
    dest: Seq<char>,
    written: bool,
)
    requires
        apart(documents),
        0 <= n < documents.len(),
        remembers_first(known, documents, n),
        parts(dest) == documents[n].dest,
        !written ==> !known.differs(dest, documents[n].bytes),
    ensures
        ({
            let before = if written {
                known.with_bytes(dest, documents[n].bytes)
            } else {
                known
            };
            remembers_first(before.with_page(documents[n].key, dest), documents, n + 1)
        }),
{
    let before = if written {
        known.with_bytes(dest, documents[n].bytes)
    } else {
        known
    };
    let after = before.with_page(documents[n].key, dest);
    assert(is_dest(documents, parts(dest)));
    assert forall|i: int| 0 <= i < n + 1 implies remembers(
        after,
        documents,
        #[trigger] documents[i],
    ) by {
        if i < n {
            assert(remembers(known, documents, documents[i]));
            assert(documents[i].dest != documents[n].dest);
        }
    }
}

proof fn lemma_remembers_step<E>(documents: Seq<Document>, scene: Scene, answer: DevAnswer<E>)
    requires
        apart(documents),
        scene.in_order(),
        on_course(documents, scene),
        fits(documents, scene, answer),
        begun(scene.run) ==> remembers_first(scene.known, documents, scene.done as int),
    ensures
        begun(scene.after(answer).run) ==> remembers_first(
            scene.after(answer).known,
            documents,
            scene.after(answer).done as int,
        ),
{
    let run = scene.run;
    let done = scene.done as int;
    lemma_stays_on_course(documents, scene, answer);
    match answer {
        DevAnswer::Validated(Ok(dest)) => {
            reveal(Run::known_after_validated);
            assert(shows(run.queue[0], documents.skip(done)[0]));
            assert(documents.skip(done)[0] == documents[done]);
            if scene.placed(answer) is Some {
                lemma_remembers_placed(scene.known, documents, done, dest@, false);
            }
        },
        DevAnswer::Written(Ok(_)) => {
            reveal(Run::known_after_written);
            assert(shows(run.queue[0], documents.skip(done)[0]));
            assert(documents.skip(done)[0] == documents[done]);
            lemma_remembers_placed(scene.known, documents, done, run.wait->Write_dest, true);
        },
        DevAnswer::Removed(_) => {
            let next = scene.after(answer);
            if begun(next.run) {
                assert(begun(run));
                assert(run.wait == Wait::Remove(Batch::Stale));
                let gone = run.doomed[0];
                assert(!owned(run.live, gone));
                assert forall|i: int| 0 <= i < done implies parts(gone) != (
                #[trigger] documents[i]).dest by {
                    assert(parts(run.live[i]) == documents[i].dest);
                }
                assert forall|i: int| 0 <= i < done implies remembers(
                    next.known,
                    documents,
                    #[trigger] documents[i],
                ) by {
                    assert(remembers(scene.known, documents, documents[i]));
                    let at = parts(scene.known.outputs[documents[i].key]);
                    let j = choose|j: int|
                        0 <= j < documents.len() && (#[trigger] documents[j]).dest == at;
                    assert(parts(gone) != documents[j].dest);
                }
            }
        },
        _ => {},
    }
}

proof fn lemma_played_remembers<E>(
    documents: Seq<Document>,
    scene: Scene,
    list: Seq<DevAnswer<E>>,
)
    requires
        apart(documents),
        scene.in_order(),
        on_course(documents, scene),
        !begun(scene.run),
        follow(documents, scene, list),
    ensures
        ({
            let end = played(scene, list);
            &&& end.in_order()
            &&& on_course(documents, end)
            &&& end.run.setup == scene.run.setup
            &&& begun(end.run) ==> remembers_first(end.known, documents, end.done as int)
        }),
    decreases list.len(),
{
    if list.len() > 0 {
        let init = list.drop_last();
        lemma_follow_step(documents, scene, list);
        lemma_played_remembers(documents, scene, init);
        lemma_stays_on_course(documents, played(scene, init), list.last());
        lemma_remembers_step(documents, played(scene, init), list.last());
    }
}

/// A tick that ends without an error leaves every page that it has rendered on
/// disk, and remembers each of them.
///
/// This is so where no two of them are put at the same path.
pub proof fn lemma_tick_leaves_pages<E>(
    documents: Seq<Document>,
    plan: Plan,
    pages: Seq<PageId>,
    caps: DevCapabilities,
    dist_root: Seq<char>,
    known: Written,
    disk: Map<Seq<Part>, Seq<u8>>,
    list: Seq<DevAnswer<E>>,
)
    requires
        plan.pages is Specific,
        plan.prune_paths.len() > 0 ==> plan.renderer_fresh,
        faithful(known, disk),
        pages.len() > 0,
        apart(documents),
        follow(documents, started(plan, pages, caps, dist_root, known, disk), list),
        played(
            started(plan, pages, caps, dist_root, known, disk),
            list,
        ).run.wait is Finished,
    ensures
        ({
            let end = played(started(plan, pages, caps, dist_root, known, disk), list);
            &&& faithful(end.known, end.disk)
            &&& end.run.outcome.pages_rendered == documents.len()
            &&& forall|i: int|
                0 <= i < documents.len() ==> {
                    let document = #[trigger] documents[i];
                    &&& remembers(end.known, documents, document)
                    &&& end.disk.contains_key(document.dest)
                    &&& end.disk[document.dest] == document.bytes
                }
        }),
{
    let scene = started(plan, pages, caps, dist_root, known, disk);
    lemma_starts_on_course(documents, plan, pages, caps, dist_root, known, disk);
    lemma_played_remembers(documents, scene, list);
    let end = played(scene, list);
    assert forall|i: int| 0 <= i < documents.len() implies remembers(
        end.known,
        documents,
        #[trigger] documents[i],
    ) && end.disk.contains_key(documents[i].dest) && end.disk[documents[i].dest]
        == documents[i].bytes by {
        assert(remembers(end.known, documents, documents[i]));
    }
}

proof fn lemma_all_owned(list: Seq<Seq<char>>, live: Seq<Seq<char>>)
    requires
        forall|i: int| 0 <= i < list.len() ==> owned(live, #[trigger] list[i]),
    ensures
        unowned(list, live).len() == 0,
    decreases list.len(),
{
    if list.len() > 0 {
        let init = list.drop_last();
        assert forall|i: int| 0 <= i < init.len() implies owned(live, #[trigger] init[i]) by {
            assert(init[i] == list[i]);
        }
        lemma_all_owned(init, live);
        assert(owned(live, list[list.len() - 1]));
    }
}

/// The tick finds every document in place, and has changed nothing.
spec fn idle(documents: Seq<Document>, scene: Scene, disk: Map<Seq<Part>, Seq<u8>>) -> bool {
    let run = scene.run;
    &&& scene.in_order()
    &&& on_course(documents, scene)
    &&& run.has_documents() ==> remembers_first(scene.known, documents, documents.len() as int)
    &&& run.setup.prune_paths.len() == 0
    &&& run.vanished.len() == 0
    &&& run.outcome.pages_written.len() == 0
    &&& run.outcome.pages_pruned.len() == 0
    &&& !(run.wait is Write)
    &&& !(run.wait is Remove)
    &&& all_dests(documents, run.left_behind)
    &&& scene.disk == disk
}

/// The paths are those of documents.
spec fn all_dests(documents: Seq<Document>, list: Seq<Seq<char>>) -> bool {
    forall|i: int| 0 <= i < list.len() ==> is_dest(documents, parts(#[trigger] list[i]))
}

proof fn lemma_remembers_page(
    known: Written,
    documents: Seq<Document>,
    n: int,
    key: Seq<Part>,
    dest: Seq<char>,
)
    requires
        remembers_first(known, documents, n),
        is_dest(documents, parts(dest)),
    ensures
        remembers_first(known.with_page(key, dest), documents, n),
{
    let after = known.with_page(key, dest);
    assert forall|i: int| 0 <= i < n implies remembers(
        after,
        documents,
        #[trigger] documents[i],
    ) by {
        assert(remembers(known, documents, documents[i]));
    }
}

/// A page that is in place is not written, and leaves no path behind that is not
/// a document's.
proof fn lemma_idle_page<E>(documents: Seq<Document>, scene: Scene, answer: DevAnswer<E>)
    requires
        on_course(documents, scene),
        begun(scene.run),
        remembers_first(scene.known, documents, documents.len() as int),
        all_dests(documents, scene.run.left_behind),
        fits(documents, scene, answer),
        answer is Validated,
    ensures
        scene.placed(answer) is Some,
        remembers_first(scene.after(answer).known, documents, documents.len() as int),
        all_dests(
            documents,
            with_stale(
                scene.run.left_behind,
                scene.known.moved_from(
                    documents[scene.done as int].key,
                    answer->Validated_0->Ok_0@,
                ),
            ),
        ),
{
    reveal(Run::known_after_validated);
    let run = scene.run;
    let done = scene.done as int;
    let n = documents.len() as int;
    let dest = answer->Validated_0->Ok_0@;
    assert(shows(run.queue[0], documents.skip(done)[0]));
    assert(documents.skip(done)[0] == documents[done]);
    let document = documents[done];
    assert(remembers(scene.known, documents, document));
    assert(is_dest(documents, parts(dest)));
    assert(!scene.known.differs(dest, document.bytes));
    lemma_remembers_page(scene.known, documents, n, document.key, dest);
    assert(scene.after(answer).known == scene.known.with_page(document.key, dest));
    let stale = scene.known.moved_from(document.key, dest);
    let list = with_stale(run.left_behind, stale);
    assert forall|i: int| 0 <= i < list.len() implies is_dest(
        documents,
        parts(#[trigger] list[i]),
    ) by {
        if i < run.left_behind.len() {
            assert(list[i] == run.left_behind[i]);
        } else {
            assert(list[i] == stale->0);
        }
    }
}

proof fn lemma_nothing_to_delete(documents: Seq<Document>, scene: Scene)
    requires
        on_course(documents, scene),
        begun(scene.run),
        stage(scene.run.wait) > 6,
        scene.run.vanished.len() == 0,
        all_dests(documents, scene.run.left_behind),
    ensures
        unowned(leavings(scene.run), scene.run.live).len() == 0,
{
    let run = scene.run;
    let list = leavings(run);
    assert forall|i: int| 0 <= i < list.len() implies owned(run.live, #[trigger] list[i]) by {
        assert(list[i] == run.left_behind[i]);
        let j = choose|j: int|
            0 <= j < documents.len() && (#[trigger] documents[j]).dest == parts(list[i]);
        assert(parts(run.live[j]) == documents[j].dest);
    }
    lemma_all_owned(list, run.live);
}

proof fn lemma_idle_step<E>(
    documents: Seq<Document>,
    scene: Scene,
    disk: Map<Seq<Part>, Seq<u8>>,
    answer: DevAnswer<E>,
)
    requires
        idle(documents, scene, disk),
        fits(documents, scene, answer),
        vanishing(answer).len() == 0,
    ensures
        idle(documents, scene.after(answer), disk),
        scene.after(answer).run.setup == scene.run.setup,
{
    let next = scene.after(answer);
    lemma_stays_on_course(documents, scene, answer);
    if answer is Validated {
        assert(scene.run.orderly());
        lemma_idle_page(documents, scene, answer);
    }
    if next.run.wait is Remove {
        assert(next.run.orderly());
        lemma_nothing_to_delete(documents, next);
    }
}

proof fn lemma_played_idle<E>(
    documents: Seq<Document>,
    scene: Scene,
    disk: Map<Seq<Part>, Seq<u8>>,
    list: Seq<DevAnswer<E>>,
)
    requires
        idle(documents, scene, disk),
        follow(documents, scene, list),
        forall|i: int| 0 <= i < list.len() ==> vanishing(#[trigger] list[i]).len() == 0,
    ensures
        idle(documents, played(scene, list), disk),
        played(scene, list).run.setup == scene.run.setup,
    decreases list.len(),
{
    if list.len() > 0 {
        let init = list.drop_last();
        lemma_follow_step(documents, scene, list);
        assert forall|i: int| 0 <= i < init.len() implies vanishing(#[trigger] init[i]).len()
            == 0 by {
            assert(init[i] == list[i]);
        }
        lemma_played_idle(documents, scene, disk, init);
        assert(vanishing(list[list.len() - 1]).len() == 0);
        lemma_idle_step(documents, played(scene, init), disk, list.last());
    }
}

/// A tick that renders what the tick before it has rendered writes nothing and
/// deletes nothing, and renders as many pages: at no point does it wait for a
/// write or a deletion, and the disk stays as it is.
///
/// The two plans select the same pages; the second may be the first. This is so
/// where no two pages are put at the same path, and where the second tick has no
/// outputs of vanished routes to delete.
pub proof fn lemma_second_tick_writes_nothing<E>(
    documents: Seq<Document>,
    plans: (RebuildPlan, RebuildPlan),
    caps: (DevCapabilities, DevCapabilities),
    dist_root: Seq<char>,
    known: Written,
    disk: Map<Seq<Part>, Seq<u8>>,
    lists: (Seq<DevAnswer<E>>, Seq<DevAnswer<E>>),
)
    requires
        plans.0@.pages is Specific,
        plans.0@.pages == plans.1@.pages,
        plans.0@.prune_paths.len() > 0 ==> plans.0@.renderer_fresh,
        plans.1@.prune_paths.len() == 0,
        faithful(known, disk),
        apart(documents),
        ({
            let first = begun_by(plans.0, caps.0, dist_root, known, disk);
            let end = played(first, lists.0);
            let second = begun_by(plans.1, caps.1, dist_root, end.known, end.disk);
            &&& follow(documents, first, lists.0)
            &&& end.run.wait is Finished
            &&& follow(documents, second, lists.1)
        }),
        forall|i: int| 0 <= i < lists.1.len() ==> vanishing(#[trigger] lists.1[i]).len() == 0,
    ensures
        ({
            let end = played(begun_by(plans.0, caps.0, dist_root, known, disk), lists.0);
            let second = begun_by(plans.1, caps.1, dist_root, end.known, end.disk);
            let now = played(second, lists.1);
            &&& now.run.outcome.pages_written.len() == 0
            &&& now.run.outcome.pages_pruned.len() == 0
            &&& !(now.run.wait is Write)
            &&& !(now.run.wait is Remove)
            &&& now.disk == end.disk
            &&& now.run.wait is Finished ==> now.run.outcome.pages_rendered
                == end.run.outcome.pages_rendered
        }),
{
    let pages = (plans.0.pages.listed(), plans.1.pages.listed());
    lemma_set_is_listed(plans.0.pages->Specific_0);
    lemma_set_is_listed(plans.1.pages->Specific_0);
    let first = begun_by(plans.0, caps.0, dist_root, known, disk);
    lemma_starts_on_course(documents, plans.0@, pages.0, caps.0, dist_root, known, disk);
    lemma_played_remembers(documents, first, lists.0);
    let end = played(first, lists.0);
    let second = begun_by(plans.1, caps.1, dist_root, end.known, end.disk);
    lemma_starts_on_course(documents, plans.1@, pages.1, caps.1, dist_root, end.known, end.disk);
    assert(second.run.setup.prune_paths == plans.1@.prune_paths);
    lemma_played_idle(documents, second, end.disk, lists.1);
}

/// How often the path occurs in the list, however it is spelled.
pub open spec fn times(list: Seq<Seq<char>>, path: Seq<Part>) -> nat
    decreases list.len(),
{
    if list.len() == 0 {
        0
    } else {
        times(list.drop_last(), path) + if parts(list.last()) == path {
            1nat
        } else {
            0
        }
    }
}

proof fn lemma_times_push(list: Seq<Seq<char>>, more: Seq<char>, path: Seq<Part>)
    ensures
        times(list.push(more), path) == times(list, path) + if parts(more) == path {
            1nat
        } else {
            0
        },
{
    assert(list.push(more).drop_last() =~= list);
}

proof fn lemma_times_joined(a: Seq<Seq<char>>, b: Seq<Seq<char>>, path: Seq<Part>)
    ensures
        times(a + b, path) == times(a, path) + times(b, path),
    decreases b.len(),
{
    if b.len() == 0 {
        assert(a + b =~= a);
    } else {
        assert((a + b).drop_last() =~= a + b.drop_last());
        lemma_times_joined(a, b.drop_last(), path);
    }
}

proof fn lemma_times_first(list: Seq<Seq<char>>, path: Seq<Part>)
    requires
        list.len() > 0,
    ensures
        times(list, path) == times(list.drop_first(), path) + if parts(list[0]) == path {
            1nat
        } else {
            0
        },
{
    assert(list =~= seq![list[0]] + list.drop_first());
    lemma_times_joined(seq![list[0]], list.drop_first(), path);
    assert(seq![list[0]].drop_last() =~= Seq::empty());
    reveal_with_fuel(times, 2);
}

proof fn lemma_times_unowned(list: Seq<Seq<char>>, live: Seq<Seq<char>>, path: Seq<Part>)
    requires
        forall|i: int| 0 <= i < live.len() ==> parts(#[trigger] live[i]) != path,
    ensures
        times(unowned(list, live), path) == times(list, path),
    decreases list.len(),
{
    if list.len() > 0 {
        let before = unowned(list.drop_last(), live);
        lemma_times_unowned(list.drop_last(), live, path);
        lemma_times_push(before, list.last(), path);
    }
}

/// The page is among the first `n` documents.
spec fn occurs(documents: Seq<Document>, key: Seq<Part>, n: int) -> bool {
    exists|i: int| 0 <= i < n && (#[trigger] documents[i]).key == key
}

/// Nothing is remembered of the path.
pub open spec fn forgotten(known: Written, path: Seq<Part>) -> bool {
    &&& !known.bytes.contains_key(path)
    &&& forall|k: Seq<Part>| #[trigger]
        known.outputs.contains_key(k) ==> parts(known.outputs[k]) != path
}

/// The page with this key alone was at `path`, and the tick puts it, and every
/// other page, elsewhere: the path is left behind once. `gone` says that
/// whatever is deleted is gone.
spec fn moving(
    documents: Seq<Document>,
    scene: Scene,
    key: Seq<Part>,
    path: Seq<Part>,
    gone: bool,
) -> bool {
    let run = scene.run;
    let known = scene.known;
    let left = occurs(documents, key, scene.done as int);
    &&& scene.in_order()
    &&& on_course(documents, scene)
    &&& run.has_documents()
    &&& times(run.vanished, path) == 0
    &&& if stage(run.wait) <= 6 {
        &&& times(run.left_behind, path) == if left {
            1nat
        } else {
            0
        }
        &&& !left ==> known.outputs.contains_key(key) && parts(known.outputs[key]) == path
        &&& forall|k: Seq<Part>| #[trigger]
            known.outputs.contains_key(k) && parts(known.outputs[k]) == path ==> k == key && !left
    } else {
        let pruned = times(run.outcome.pages_pruned, path);
        &&& forall|k: Seq<Part>| #[trigger]
            known.outputs.contains_key(k) ==> parts(known.outputs[k]) != path
        &&& if run.wait == Wait::Remove(Batch::Stale) {
            times(run.doomed, path) + pruned == 1
        } else {
            pruned == 1
        }
        &&& pruned == 1 ==> !known.bytes.contains_key(path)
        &&& pruned == 1 && gone ==> !scene.disk.contains_key(path)
    }
}

proof fn lemma_moving_step<E>(
    documents: Seq<Document>,
    scene: Scene,
    key: Seq<Part>,
    path: Seq<Part>,
    gone: bool,
    answer: DevAnswer<E>,
)
    requires
        moving(documents, scene, key, path, gone),
        fits(documents, scene, answer),
        occurs(documents, key, documents.len() as int),
        !is_dest(documents, path),
        times(vanishing(answer), path) == 0,
        gone ==> (answer matches DevAnswer::Removed(g) ==> g),
    ensures
        moving(documents, scene.after(answer), key, path, gone),
{
    let run = scene.run;
    let done = scene.done as int;
    let next = scene.after(answer);
    lemma_stays_on_course(documents, scene, answer);
    lemma_times_joined(run.vanished, vanishing(answer), path);
    assert(run.orderly());
    lemma_tick_goes_forward(run, scene.known, answer);
    if stage(run.wait) <= 6 {
        if let Some(dest) = scene.placed(answer) {
            reveal(Run::known_after_validated);
            reveal(Run::known_after_written);
            assert(shows(run.queue[0], documents.skip(done)[0]));
            assert(documents.skip(done)[0] == documents[done]);
            let page = documents[done].key;
            let stale = scene.known.moved_from(page, dest);
            assert(is_dest(documents, parts(dest)));
            assert(next.known.outputs == scene.known.outputs.insert(page, dest));
            if stale is Some {
                lemma_times_push(run.left_behind, stale->0, path);
            }
            assert(occurs(documents, key, done + 1) == (occurs(documents, key, done) || page
                == key)) by {
                if occurs(documents, key, done) {
                    let i = choose|i: int| 0 <= i < done && (#[trigger] documents[i]).key == key;
                    assert(documents[i].key == key && i < done + 1);
                }
                if page == key {
                    assert(documents[done].key == key);
                }
            }
        } else if answer is Validated {
            reveal(Run::known_after_validated);
            assert(next.known == scene.known);
        }
        if stage(next.run.wait) > 6 {
            assert(begun(next.run));
            assert(occurs(documents, key, next.done as int));
            assert forall|i: int| 0 <= i < next.run.live.len() implies parts(
                #[trigger] next.run.live[i],
            ) != path by {
                assert(parts(next.run.live[i]) == documents[i].dest);
            }
            let list = leavings(next.run);
            lemma_times_joined(next.run.left_behind, next.run.vanished, path);
            lemma_times_unowned(list, next.run.live, path);
            assert(times(unowned(list, next.run.live), path) == 1);
            assert(next.run.outcome.pages_pruned.len() == 0);
        }
    } else if answer is Removed {
        assert(run.wait == Wait::Remove(Batch::Stale));
        lemma_times_first(run.doomed, path);
        lemma_times_push(run.outcome.pages_pruned, run.doomed[0], path);
    }
}

proof fn lemma_played_moving<E>(
    documents: Seq<Document>,
    scene: Scene,
    key: Seq<Part>,
    path: Seq<Part>,
    gone: bool,
    list: Seq<DevAnswer<E>>,
)
    requires
        moving(documents, scene, key, path, gone),
        follow(documents, scene, list),
        occurs(documents, key, documents.len() as int),
        !is_dest(documents, path),
        forall|i: int| 0 <= i < list.len() ==> times(vanishing(#[trigger] list[i]), path) == 0,
        gone ==> forall|i: int|
            0 <= i < list.len() ==> (#[trigger] list[i] matches DevAnswer::Removed(g) ==> g),
    ensures
        moving(documents, played(scene, list), key, path, gone),
    decreases list.len(),
{
    if list.len() > 0 {
        let init = list.drop_last();
        lemma_follow_step(documents, scene, list);
        assert forall|i: int| 0 <= i < init.len() implies times(
            vanishing(#[trigger] init[i]),
            path,
        ) == 0 && (gone ==> (init[i] matches DevAnswer::Removed(g) ==> g)) by {
            assert(init[i] == list[i]);
        }
        lemma_played_moving(documents, scene, key, path, gone, init);
        assert(times(vanishing(list[list.len() - 1]), path) == 0);
        lemma_moving_step(documents, played(scene, init), key, path, gone, list.last());
    }
}

/// Every deletion among the answers has succeeded.
pub open spec fn deletions_succeed<E>(list: Seq<DevAnswer<E>>) -> bool {
    forall|i: int|
        0 <= i < list.len() ==> (#[trigger] list[i] matches DevAnswer::Removed(gone) ==> gone)
}

/// An output that its only page has moved away from is deleted once, and nothing
/// is remembered of it: a request for it, whatever its bytes, is written. The
/// page is where it has moved to, unless another page is put there too.
///
/// This is so where no page of the tick is put at the path, and where the path is
/// not among the outputs of vanished routes.
pub proof fn lemma_moved_output_goes_once<E>(
    documents: Seq<Document>,
    plan: Plan,
    pages: Seq<PageId>,
    caps: DevCapabilities,
    dist_root: Seq<char>,
    known: Written,
    disk: Map<Seq<Part>, Seq<u8>>,
    list: Seq<DevAnswer<E>>,
    page: int,
    path: Seq<Part>,
    request: Request,
    dest: String,
)
    requires
        plan.pages is Specific,
        plan.prune_paths.len() > 0 ==> plan.renderer_fresh,
        faithful(known, disk),
        pages.len() > 0,
        follow(documents, started(plan, pages, caps, dist_root, known, disk), list),
        played(
            started(plan, pages, caps, dist_root, known, disk),
            list,
        ).run.wait is Finished,
        0 <= page < documents.len(),
        known.outputs.contains_key(documents[page].key),
        parts(known.outputs[documents[page].key]) == path,
        forall|k: Seq<Part>| #[trigger]
            known.outputs.contains_key(k) && parts(known.outputs[k]) == path ==> k
                == documents[page].key,
        !is_dest(documents, path),
        times(plan.prune_paths, path) == 0,
        forall|i: int| 0 <= i < list.len() ==> times(vanishing(#[trigger] list[i]), path) == 0,
        request.wait is Validate,
        parts(dest@) == path,
    ensures
        ({
            let end = played(started(plan, pages, caps, dist_root, known, disk), list);
            let document = documents[page];
            let asked = request.after(end.known, RequestAnswer::<E>::Validated(Ok(dest)));
            let answer = RequestAnswer::<E>::Written(Ok(()));
            &&& times(end.run.outcome.pages_pruned, path) == 1
            &&& forgotten(end.known, path)
            &&& deletions_succeed(list) ==> !end.disk.contains_key(path)
            &&& apart(documents) ==> end.disk.contains_key(document.dest)
                && end.disk[document.dest] == document.bytes
            &&& asked == request.at(RequestWait::Write { dest: dest@ })
            &&& asked.after(end.known, answer) == asked.in_place(true)
            &&& !asked.known_after(end.known, answer).differs(dest@, request.bytes)
        }),
{
    let scene = started(plan, pages, caps, dist_root, known, disk);
    let key = documents[page].key;
    lemma_starts_on_course(documents, plan, pages, caps, dist_root, known, disk);
    assert(occurs(documents, key, documents.len() as int));
    assert(!occurs(documents, key, 0));
    lemma_played_moving(documents, scene, key, path, deletions_succeed(list), list);
    if apart(documents) {
        lemma_tick_leaves_pages(documents, plan, pages, caps, dist_root, known, disk, list);
    }
}

} // verus!
