//! What is on disk while ticks and requests write: what is remembered of the
//! writes is really there, and so is every page that a tick has rendered.

use vstd::prelude::*;

use crate::page::PageId;
use crate::path::{parts, Part};
use crate::pipeline::cache::Written;
use crate::pipeline::dev::{
    answers, bytes_of, error_of, opened, owned, remembered, stepped, DevAnswer, DevCapabilities,
    Run, Wait,
};
use crate::pipeline::dev_laws::{lemma_tick_begins, lemma_tick_goes_forward, stage};
use crate::pipeline::walk::{deals, lemma_begins, lemma_steps, placed_at, waits_fit};
use crate::pipeline::request::{replies, Request, RequestAnswer};
use crate::plan::Plan;

verus! {

/// What is remembered of the bytes that were written is on disk. `disk` holds
/// the content of each file by its path.
pub open spec fn faithful(known: Written, disk: Map<Seq<Part>, Seq<u8>>) -> bool {
    forall|p: Seq<Part>| #[trigger]
        known.bytes.contains_key(p) ==> disk.contains_key(p) && disk[p] == known.bytes[p]
}

/// What is on disk after an answer to a tick: what the write put there, all but
/// what is gone, and otherwise what was there. A write that failed has left the
/// file as it was.
pub open spec fn disk_after<E>(
    run: Run,
    disk: Map<Seq<Part>, Seq<u8>>,
    answer: DevAnswer<E>,
) -> Map<Seq<Part>, Seq<u8>> {
    match answer {
        DevAnswer::Written(Ok(_)) => disk.insert(
            parts(run.wait->Write_dest),
            run.wait->Write_bytes,
        ),
        DevAnswer::Removed(true) => disk.remove(parts(run.doomed[0])),
        _ => disk,
    }
}

/// What is remembered after an answer to a tick.
pub open spec fn known_after<E>(run: Run, known: Written, answer: DevAnswer<E>) -> Written {
    if error_of(answer) is Some {
        known
    } else {
        remembered(run, known, answer)
    }
}

/// A tick never remembers anything that is not on disk: not where a write
/// fails, and not where a file is deleted or cannot be.
pub proof fn lemma_remembered_is_on_disk<E>(
    run: Run,
    known: Written,
    disk: Map<Seq<Part>, Seq<u8>>,
    answer: DevAnswer<E>,
)
    requires
        faithful(known, disk),
        answers(run.wait, answer),
    ensures
        faithful(known_after(run, known, answer), disk_after(run, disk, answer)),
{
    reveal(Run::known_after_validated);
    reveal(Run::known_after_written);
}

/// What is on disk after an answer to a request-time write.
pub open spec fn request_disk_after<E>(
    request: Request,
    disk: Map<Seq<Part>, Seq<u8>>,
    answer: RequestAnswer<E>,
) -> Map<Seq<Part>, Seq<u8>> {
    match answer {
        RequestAnswer::Written(Ok(_)) => disk.insert(
            parts(request.wait->Write_dest),
            request.bytes,
        ),
        _ => disk,
    }
}

/// A request never remembers anything that is not on disk either. Where its
/// bytes are put in place, by a write or because they were there, they are on
/// disk.
pub proof fn lemma_requested_is_on_disk<E>(
    request: Request,
    known: Written,
    disk: Map<Seq<Part>, Seq<u8>>,
    answer: RequestAnswer<E>,
)
    requires
        faithful(known, disk),
        replies(request.wait, answer),
    ensures
        ({
            let after = request_disk_after(request, disk, answer);
            &&& faithful(request.known_after(known, answer), after)
            &&& answer matches RequestAnswer::Validated(Ok(dest)) ==> !(request.after(
                known,
                answer,
            ).wait is Write) ==> after.contains_key(parts(dest@)) && after[parts(dest@)]
                == request.bytes
            &&& answer matches RequestAnswer::Written(Ok(_)) ==> after.contains_key(
                parts(request.wait->Write_dest),
            ) && after[parts(request.wait->Write_dest)] == request.bytes
        }),
{
}

/// The path with these components is one of the paths in the list.
pub open spec fn among(list: Seq<Seq<char>>, p: Seq<Part>) -> bool {
    exists|i: int| 0 <= i < list.len() && parts(#[trigger] list[i]) == p
}

/// A tick in its surroundings.
pub struct Scene {
    pub run: Run,
    /// What is remembered of the writes.
    pub known: Written,
    /// What is on disk.
    pub disk: Map<Seq<Part>, Seq<u8>>,
    /// The bytes of the pages that the tick is done with, by where they are.
    pub shown: Map<Seq<Part>, Seq<u8>>,
    /// How many pages the tick is done with.
    pub done: nat,
}

impl Scene {
    /// The path at which the answer puts the first page of the queue in place.
    pub open spec fn placed<E>(self, answer: DevAnswer<E>) -> Option<Seq<char>> {
        placed_at(self.run, self.known, answer)
    }

    /// The tick and its surroundings after an answer.
    pub open spec fn after<E>(self, answer: DevAnswer<E>) -> Scene {
        Scene {
            run: stepped(self.run, self.known, answer),
            known: known_after(self.run, self.known, answer),
            disk: disk_after(self.run, self.disk, answer),
            shown: match self.placed(answer) {
                Some(dest) => self.shown.insert(parts(dest), bytes_of(self.run.queue[0].html@)),
                None => self.shown,
            },
            done: match self.placed(answer) {
                Some(_) => self.done + 1,
                None => self.done,
            },
        }
    }

    /// Every page that the tick is done with is on disk.
    pub open spec fn pages_are_there(self) -> bool {
        forall|p: Seq<Part>| #[trigger]
            self.shown.contains_key(p) ==> self.disk.contains_key(p) && self.disk[p]
                == self.shown[p]
    }

    /// The tick is where a tick can come to, knows what is on disk, and is
    /// carrying out a plan that deletes outputs only where the renderer is
    /// already fresh.
    pub open spec fn in_order(self) -> bool {
        &&& self.run.wait is Finished || self.run.orderly()
        &&& self.run.setup.prune_paths.len() > 0 ==> self.run.setup.renderer_fresh
        &&& waits_fit(self.run)
        &&& self.run.refresh_skipped ==> !self.run.setup.renderer_fresh
        &&& faithful(self.known, self.disk)
        &&& self.pages_are_there()
        &&& self.pages_are_owned()
        &&& self.pages_are_counted()
        &&& self.run.wait matches Wait::Write { dest, bytes, .. } ==> bytes == bytes_of(
            self.run.queue[0].html@,
        ) && owned(self.run.live, dest)
    }

    /// Where a page is that the tick is done with, some page of the tick owns
    /// the path.
    pub open spec fn pages_are_owned(self) -> bool {
        forall|p: Seq<Part>| #[trigger]
            self.shown.contains_key(p) ==> self.run.has_documents() && among(self.run.live, p)
    }

    /// The tick is done with what was rendered, but for the queue.
    pub open spec fn pages_are_counted(self) -> bool {
        &&& self.done + self.run.queue.len() == self.run.outcome.pages_rendered
        &&& stage(self.run.wait) < 6 ==> self.done == 0 && self.run.queue.len() == 0
        &&& 6 < stage(self.run.wait) < 14 ==> self.run.queue.len() == 0
    }
}

/// A tick starts with what is remembered on disk, and done with no page.
pub proof fn lemma_scene_begins(
    plan: Plan,
    pages: Seq<PageId>,
    caps: DevCapabilities,
    dist_root: Seq<char>,
    known: Written,
    disk: Map<Seq<Part>, Seq<u8>>,
)
    requires
        plan.pages is Specific,
        plan.prune_paths.len() > 0 ==> plan.renderer_fresh,
        faithful(known, disk),
    ensures
        (Scene {
            run: opened(plan, pages, caps, dist_root).begin(),
            known,
            disk,
            shown: Map::empty(),
            done: 0,
        }).in_order(),
{
    let run = opened(plan, pages, caps, dist_root);
    lemma_tick_begins(plan, pages, caps, dist_root);
    lemma_begins(run);
}

/// A page that is put in place is on disk, and its path is owned.
proof fn lemma_placing<E>(scene: Scene, answer: DevAnswer<E>)
    requires
        scene.in_order(),
        answers(scene.run.wait, answer),
        error_of(answer) is None,
        answer is Validated || answer is Written,
        deals(scene.run, scene.known, answer, scene.after(answer).run),
    ensures
        scene.after(answer).pages_are_there(),
        scene.after(answer).pages_are_owned(),
{
    let run = scene.run;
    let next = scene.after(answer);
    if let DevAnswer::Validated(Ok(dest)) = answer {
        assert forall|p: Seq<Part>| #[trigger] next.shown.contains_key(p) implies among(
            next.run.live,
            p,
        ) by {
            if scene.shown.contains_key(p) {
                let i = choose|i: int|
                    0 <= i < run.live.len() && parts(#[trigger] run.live[i]) == p;
                assert(next.run.live[i] == run.live[i]);
            } else {
                assert(next.run.live[run.live.len() as int] == dest@);
            }
        }
    }
}

/// Whatever the answer, what is remembered stays on disk, and so does every page
/// that the tick is done with: none of them is deleted by it. A tick that ends
/// without an error is done with all that was rendered.
pub proof fn lemma_pages_stay_on_disk<E>(scene: Scene, answer: DevAnswer<E>)
    requires
        scene.in_order(),
        answers(scene.run.wait, answer),
    ensures
        scene.after(answer).in_order(),
        scene.after(answer).run.wait is Finished && error_of(answer) is None ==> scene.after(
            answer,
        ).done == scene.after(answer).run.outcome.pages_rendered,
{
    let run = scene.run;
    let next = scene.after(answer);
    lemma_tick_goes_forward(run, scene.known, answer);
    lemma_remembered_is_on_disk(run, scene.known, scene.disk, answer);
    if error_of(answer) is None {
        lemma_steps(run, scene.known, answer);
        match answer {
            DevAnswer::Validated(Ok(dest)) => {
                lemma_placing(scene, answer);
                assert(next.run.live.last() == dest@);
            },
            DevAnswer::Written(_) => {
                lemma_placing(scene, answer);
            },
            DevAnswer::Removed(_) => {
                assert(!scene.shown.contains_key(parts(run.doomed[0]))) by {
                    if scene.shown.contains_key(parts(run.doomed[0])) {
                        assert(run.has_documents());
                        assert(owned(run.live, run.doomed[0]));
                    }
                }
            },
            _ => {},
        }
    }
}

} // verus!
