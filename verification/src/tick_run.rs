//! One tick from the watcher's changes to its plan, as a machine: what is asked
//! of the project, in which order, and what comes of the answers.
//!
//! The order matters. What is known of created files is read after the removed
//! ones are forgotten, discovery runs after the removed files have left the
//! dependency graph, and the changes are looked at after discovery, which may
//! have added pages.

use vstd::prelude::*;

use crate::facts::{changes_view, Change, ChangeKind, PathFacts, Project};
use crate::orchestrator::BuildOrchestrator;
use crate::page::{page_key_set, PageId};
use crate::plan::{texts, Plan, RebuildPlan};
use crate::tick::{
    answers_about, created_paths, live_changes, normalized, plan_view, removed_paths, settled,
    tick_plan, CreatedFacts, DiscoveryOutcome, NormalizedTick, TickAnswers, TickIntake, Told,
};

verus! {

/// What a tick waits for, for specifications.
pub enum TickWait {
    /// That the registry of known content has forgotten the removed paths.
    Purge,
    /// What is known of the changed paths that may be created ones.
    Inspect,
    /// That the removed paths have left the dependency graph.
    Detach,
    /// What the discovery hook did.
    Discover,
    /// What is known of the changes and of the removed paths.
    Facts,
    /// All the pages that there are.
    Pages,
    /// Nothing: this is what the pipeline is handed.
    Planned(Option<Plan>),
    /// Nothing: discovery failed, and with it the tick.
    Failed,
}

/// Where a tick stands before it is handed to the pipeline.
pub struct Tick {
    /// The changes as the watcher reported them.
    pub changes: Seq<(Seq<char>, ChangeKind)>,
    /// Whether there is a discovery hook.
    pub hooked: bool,
    /// What the tick waits for.
    pub wait: TickWait,
    /// The changes that are no removals, under their real kinds.
    pub live: Seq<(Seq<char>, ChangeKind)>,
    /// What the tick was told.
    pub told: Told,
}

/// Nothing was told.
pub open spec fn untold() -> Told {
    Told {
        planned: Seq::empty(),
        removed: Seq::empty(),
        removed_consumers: Seq::empty(),
        found: Seq::empty(),
        reloaded: false,
        vanished: Seq::empty(),
    }
}

/// What came of what a tick waited for. `E` is whatever discovery reports as an
/// error.
#[derive(Debug)]
pub enum TickAnswer<E> {
    /// The removed paths are forgotten, with all that lies below them.
    Purged,
    /// What is known of each change, in order.
    Inspected(Vec<CreatedFacts>),
    /// The removed paths have left the graph. These pages read them.
    Detached(Vec<PageId>),
    /// What the discovery hook did.
    Discovered(Result<DiscoveryOutcome, E>),
    /// What is known of each change that is no removal, and of each removed
    /// path, in order.
    Facts {
        planned: Vec<PathFacts>,
        removed: Vec<PathFacts>,
    },
    /// All the pages that there are.
    Pages(Vec<PageId>),
}

/// The error in the answer, if it is one.
pub open spec fn tick_error_of<E>(answer: TickAnswer<E>) -> Option<E> {
    match answer {
        TickAnswer::Discovered(Err(e)) => Some(e),
        _ => None,
    }
}

impl Tick {
    /// Where a tick starts.
    pub open spec fn opened(changes: Seq<(Seq<char>, ChangeKind)>, hooked: bool) -> Tick {
        Tick {
            changes,
            hooked,
            wait: if removed_paths(changes).len() > 0 {
                TickWait::Purge
            } else {
                TickWait::Inspect
            },
            live: Seq::empty(),
            told: untold(),
        }
    }

    /// The removed paths.
    pub open spec fn gone(self) -> Seq<Seq<char>> {
        removed_paths(self.changes)
    }

    pub open spec fn at(self, wait: TickWait) -> Tick {
        Tick { wait, ..self }
    }

    /// The removed paths leave the graph, where there are any.
    pub open spec fn to_detach(self) -> Tick {
        if self.gone().len() > 0 {
            self.at(TickWait::Detach)
        } else {
            self.to_discover()
        }
    }

    /// The discovery hook runs, where there is one and a file was created.
    pub open spec fn to_discover(self) -> Tick {
        if self.hooked && created_paths(self.live).len() > 0 {
            self.at(TickWait::Discover)
        } else {
            self.at(TickWait::Facts)
        }
    }

    /// The answer is one to what the tick waits for.
    pub open spec fn answers<E>(self, answer: TickAnswer<E>) -> bool {
        match self.wait {
            TickWait::Purge => answer is Purged,
            TickWait::Inspect => answer matches TickAnswer::Inspected(facts) && facts@.len()
                == self.changes.len(),
            TickWait::Detach => answer is Detached,
            TickWait::Discover => answer is Discovered,
            TickWait::Facts => answer matches TickAnswer::Facts { planned, removed }
                && answers_about(
                self.live,
                self.gone(),
                Told { planned: planned@, removed: removed@, ..self.told },
            ),
            TickWait::Pages => answer is Pages,
            TickWait::Planned(_) => false,
            TickWait::Failed => false,
        }
    }

    /// Where the tick stands after an answer.
    pub open spec fn after<E>(self, project: Project, answer: TickAnswer<E>) -> Tick {
        match answer {
            TickAnswer::Purged => self.at(TickWait::Inspect),
            TickAnswer::Inspected(facts) => Tick {
                live: live_changes(normalized(self.changes, facts@)),
                ..self
            }.to_detach(),
            TickAnswer::Detached(pages) => Tick {
                told: Told { removed_consumers: pages@, ..self.told },
                ..self
            }.to_discover(),
            TickAnswer::Discovered(Ok(found)) => Tick {
                told: Told {
                    found: found.pages@,
                    reloaded: found.renderer_reloaded,
                    vanished: texts(found.vanished_output_paths@),
                    ..self.told
                },
                ..self
            }.at(TickWait::Facts),
            TickAnswer::Discovered(Err(_)) => self.at(TickWait::Failed),
            TickAnswer::Facts { planned, removed } => Tick {
                told: Told { planned: planned@, removed: removed@, ..self.told },
                ..self
            }.at(TickWait::Pages),
            TickAnswer::Pages(pages) => self.at(
                TickWait::Planned(
                    settled(tick_plan(project, self.live, self.told), page_key_set(pages@)),
                ),
            ),
        }
    }
}

#[derive(Debug)]
enum Stage {
    Purge,
    Inspect,
    Detach,
    Discover,
    Facts,
    Pages,
    Planned(Option<RebuildPlan>),
    Failed,
}

impl Stage {
    spec fn stands_for(&self) -> TickWait {
        match self {
            Stage::Purge => TickWait::Purge,
            Stage::Inspect => TickWait::Inspect,
            Stage::Detach => TickWait::Detach,
            Stage::Discover => TickWait::Discover,
            Stage::Facts => TickWait::Facts,
            Stage::Pages => TickWait::Pages,
            Stage::Planned(plan) => TickWait::Planned(plan_view(*plan)),
            Stage::Failed => TickWait::Failed,
        }
    }
}

/// What is to be done next in a tick.
#[derive(Debug, PartialEq, Eq)]
pub enum TickAction {
    /// Make the registry of known content forget these paths, with all that lies
    /// below them.
    Purge { paths: Vec<String> },
    /// Find out what is known of each change.
    Inspect,
    /// Take these paths out of the dependency graph, and find out which pages
    /// read them.
    Detach { paths: Vec<String> },
    /// Have the discovery hook look at these created paths.
    Discover { paths: Vec<String> },
    /// Find out what is known of each change that is no removal, and of each
    /// removed path.
    Facts,
    /// List all pages.
    ListPages,
    /// Nothing: the plan is made.
    Finish,
    /// Nothing: the tick has failed.
    Fail,
}

/// The action is the one that the tick waits for.
pub open spec fn tick_acts(tick: Tick, action: TickAction) -> bool {
    match tick.wait {
        TickWait::Purge => action matches TickAction::Purge { paths } && texts(paths@)
            == tick.gone(),
        TickWait::Inspect => action is Inspect,
        TickWait::Detach => action matches TickAction::Detach { paths } && texts(paths@)
            == tick.gone(),
        TickWait::Discover => action matches TickAction::Discover { paths } && texts(paths@)
            == created_paths(tick.live),
        TickWait::Facts => action is Facts,
        TickWait::Pages => action is ListPages,
        TickWait::Planned(_) => action is Finish,
        TickWait::Failed => action is Fail,
    }
}

/// One tick, up to its plan.
#[derive(Debug)]
pub struct TickRun {
    intake: TickIntake,
    hooked: bool,
    stage: Stage,
    tick: NormalizedTick,
    answers: TickAnswers,
}

impl View for TickRun {
    type V = Tick;

    closed spec fn view(&self) -> Tick {
        Tick {
            changes: self.intake@,
            hooked: self.hooked,
            wait: self.stage.stands_for(),
            live: self.tick.live(),
            told: self.answers@,
        }
    }
}

impl TickRun {
    /// The tick is one that can be gone on with.
    pub closed spec fn sound(&self) -> bool {
        &&& match self.stage {
            Stage::Detach | Stage::Discover | Stage::Facts | Stage::Pages => self.tick.gone()
                == removed_paths(self.intake@),
            _ => true,
        }
        &&& self.stage is Pages ==> answers_about(
            self.tick.live(),
            self.tick.gone(),
            self.answers@,
        )
    }

    /// Begins a tick with these changes. `hooked` says whether there is a
    /// discovery hook.
    pub fn begin(changes: Vec<Change>, hooked: bool) -> (r: TickRun)
        ensures
            r.sound(),
            r@ == Tick::opened(changes_view(changes@), hooked),
    {
        let intake = TickIntake::new(changes);
        let purges = intake.purges();
        assert(texts(purges@).len() == purges@.len());
        let stage = if purges.len() > 0 {
            Stage::Purge
        } else {
            Stage::Inspect
        };
        let answers = TickAnswers {
            planned: Vec::new(),
            removed: Vec::new(),
            removed_consumers: Vec::new(),
            discovered: DiscoveryOutcome::default(),
        };
        assert(answers@.planned =~= Seq::empty());
        assert(answers@.removed =~= Seq::empty());
        assert(answers@.removed_consumers =~= Seq::empty());
        assert(answers@.found =~= Seq::empty());
        assert(answers@.vanished =~= Seq::empty());
        let tick = NormalizedTick::empty();
        assert(tick.live() =~= Seq::empty());
        TickRun { intake, hooked, stage, tick, answers }
    }

    /// The changes as the watcher reported them.
    pub fn changes(&self) -> (r: &Vec<Change>)
        ensures
            changes_view(r@) == self@.changes,
    {
        self.intake.changes()
    }

    /// The changes that are no removals, under their real kinds.
    pub fn live_changes(&self) -> (r: &Vec<Change>)
        ensures
            changes_view(r@) == self@.live,
    {
        self.tick.live_changes()
    }

    /// The removed paths.
    pub fn removed(&self) -> (r: Vec<String>)
        ensures
            texts(r@) == self@.gone(),
    {
        self.intake.purges()
    }

    /// What is to be done next.
    pub fn action(&self) -> (r: TickAction)
        requires
            self.sound(),
        ensures
            tick_acts(self@, r),
    {
        match &self.stage {
            Stage::Purge => TickAction::Purge { paths: self.intake.purges() },
            Stage::Inspect => TickAction::Inspect,
            Stage::Detach => TickAction::Detach { paths: self.intake.purges() },
            Stage::Discover => TickAction::Discover { paths: self.tick.created() },
            Stage::Facts => TickAction::Facts,
            Stage::Pages => TickAction::ListPages,
            Stage::Planned(_) => TickAction::Finish,
            Stage::Failed => TickAction::Fail,
        }
    }

    fn to_discover(&mut self)
        requires
            old(self).tick.gone() == removed_paths(old(self).intake@),
        ensures
            final(self)@ == old(self)@.to_discover(),
            final(self).sound(),
    {
        self.stage = match self.tick.discovery_request(self.hooked) {
            Some(_) => Stage::Discover,
            None => Stage::Facts,
        };
    }

    /// Takes the answer to what the tick waited for. An error is handed back,
    /// and the tick has failed.
    pub fn resume<E>(
        &mut self,
        orchestrator: &BuildOrchestrator,
        answer: TickAnswer<E>,
    ) -> (r: Result<(), E>)
        requires
            old(self).sound(),
            old(self)@.answers(answer),
        ensures
            final(self).sound(),
            final(self)@ == old(self)@.after(orchestrator.project(), answer),
            match r {
                Ok(_) => tick_error_of(answer) is None,
                Err(e) => tick_error_of(answer) == Some(e),
            },
    {
        match answer {
            TickAnswer::Purged => {
                self.stage = Stage::Inspect;
            },
            TickAnswer::Inspected(facts) => {
                self.tick = self.intake.normalize(&facts);
                let gone: usize = self.tick.removed().len();
                assert(self.tick.gone().len() == gone);
                if gone > 0 {
                    self.stage = Stage::Detach;
                } else {
                    self.to_discover();
                }
            },
            TickAnswer::Detached(pages) => {
                self.answers.removed_consumers = pages;
                self.to_discover();
            },
            TickAnswer::Discovered(Ok(found)) => {
                self.answers.discovered = found;
                self.stage = Stage::Facts;
            },
            TickAnswer::Discovered(Err(e)) => {
                self.stage = Stage::Failed;
                return Err(e);
            },
            TickAnswer::Facts { planned, removed } => {
                self.answers.planned = planned;
                self.answers.removed = removed;
                self.stage = Stage::Pages;
            },
            TickAnswer::Pages(pages) => {
                let plan = orchestrator.tick_with_kinds(&self.tick, &self.answers, &pages);
                self.stage = Stage::Planned(plan);
            },
        }
        Ok(())
    }

    /// What the pipeline is handed: nothing where the tick asks for nothing, is
    /// not planned yet or has failed.
    pub fn into_plan(self) -> (r: Option<RebuildPlan>)
        ensures
            plan_view(r) == match self@.wait {
                TickWait::Planned(plan) => plan,
                _ => None,
            },
    {
        match self.stage {
            Stage::Planned(plan) => plan,
            _ => None,
        }
    }
}

/// Where a tick stands after these answers.
pub open spec fn told_all<E>(project: Project, tick: Tick, list: Seq<TickAnswer<E>>) -> Tick
    decreases list.len(),
{
    if list.len() == 0 {
        tick
    } else {
        told_all(project, tick, list.drop_last()).after(project, list.last())
    }
}

/// The answers are, one after another, those that the tick waits for.
pub open spec fn tell<E>(project: Project, tick: Tick, list: Seq<TickAnswer<E>>) -> bool {
    forall|i: int|
        0 <= i < list.len() ==> told_all(project, tick, #[trigger] list.take(i)).answers(list[i])
}

/// What the answers tell, one after another. What is not asked counts as
/// nothing.
pub open spec fn told_by<E>(list: Seq<TickAnswer<E>>) -> Told
    decreases list.len(),
{
    if list.len() == 0 {
        untold()
    } else {
        let before = told_by(list.drop_last());
        match list.last() {
            TickAnswer::Detached(pages) => Told { removed_consumers: pages@, ..before },
            TickAnswer::Discovered(Ok(found)) => Told {
                found: found.pages@,
                reloaded: found.renderer_reloaded,
                vanished: texts(found.vanished_output_paths@),
                ..before
            },
            TickAnswer::Facts { planned, removed } => Told {
                planned: planned@,
                removed: removed@,
                ..before
            },
            _ => before,
        }
    }
}

proof fn lemma_told_by<E>(project: Project, tick: Tick, list: Seq<TickAnswer<E>>)
    requires
        tick.told == untold(),
    ensures
        told_all(project, tick, list).told == told_by(list),
    decreases list.len(),
{
    if list.len() > 0 {
        lemma_told_by(project, tick, list.drop_last());
    }
}

/// The order of what a tick is told.
pub open spec fn place<E>(answer: TickAnswer<E>) -> nat {
    match answer {
        TickAnswer::Purged => 0,
        TickAnswer::Inspected(_) => 1,
        TickAnswer::Detached(_) => 2,
        TickAnswer::Discovered(_) => 3,
        TickAnswer::Facts { .. } => 4,
        TickAnswer::Pages(_) => 5,
    }
}

/// The order of what a tick waits for.
spec fn wait_place(wait: TickWait) -> nat {
    match wait {
        TickWait::Purge => 0,
        TickWait::Inspect => 1,
        TickWait::Detach => 2,
        TickWait::Discover => 3,
        TickWait::Facts => 4,
        TickWait::Pages => 5,
        TickWait::Planned(_) => 6,
        TickWait::Failed => 6,
    }
}

/// The answer was given.
pub open spec fn given<E>(list: Seq<TickAnswer<E>>, at: nat, until: int) -> bool {
    exists|i: int| 0 <= i < until && place(#[trigger] list[i]) == at
}

proof fn lemma_tell_step<E>(project: Project, tick: Tick, list: Seq<TickAnswer<E>>)
    requires
        tell(project, tick, list),
        list.len() > 0,
    ensures
        tell(project, tick, list.drop_last()),
        told_all(project, tick, list.drop_last()).answers(list.last()),
{
    let init = list.drop_last();
    assert(list.take(list.len() - 1) =~= init);
    assert forall|i: int| 0 <= i < init.len() implies told_all(
        project,
        tick,
        #[trigger] init.take(i),
    ).answers(init[i]) by {
        assert(init.take(i) =~= list.take(i));
    }
}

proof fn lemma_told_in_order<E>(
    project: Project,
    changes: Seq<(Seq<char>, ChangeKind)>,
    hooked: bool,
    list: Seq<TickAnswer<E>>,
)
    requires
        tell(project, Tick::opened(changes, hooked), list),
    ensures
        ({
            let end = told_all(project, Tick::opened(changes, hooked), list);
            let n = list.len() as int;
            &&& end.changes == changes
            &&& end.hooked == hooked
            &&& forall|i: int|
                0 <= i < n ==> place(#[trigger] list[i]) < wait_place(end.wait)
            &&& forall|i: int, j: int|
                0 <= i < j < n ==> place(#[trigger] list[i]) < place(#[trigger] list[j])
            &&& wait_place(end.wait) >= 1 && removed_paths(changes).len() > 0 ==> given(list, 0, n)
            &&& wait_place(end.wait) >= 2 ==> given(list, 1, n)
            &&& wait_place(end.wait) >= 3 && removed_paths(changes).len() > 0 ==> given(list, 2, n)
            &&& wait_place(end.wait) >= 5 ==> given(list, 4, n) || end.wait is Failed
            &&& end.wait is Failed <==> n > 0 && tick_error_of(list.last()) is Some
            &&& forall|i: int|
                0 <= i < n - 1 ==> tick_error_of(#[trigger] list[i]) is None
        }),
    decreases list.len(),
{
    let tick = Tick::opened(changes, hooked);
    if list.len() > 0 {
        let init = list.drop_last();
        let n = list.len() as int;
        lemma_tell_step(project, tick, list);
        lemma_told_in_order(project, changes, hooked, init);
        let before = told_all(project, tick, init);
        let end = told_all(project, tick, list);
        assert(list[n - 1] == list.last());
        assert forall|at: nat| #[trigger] given(init, at, n - 1) implies given(list, at, n) by {
            let i = choose|i: int| 0 <= i < n - 1 && place(#[trigger] init[i]) == at;
            assert(place(list[i]) == at);
        }
        assert forall|at: nat| place(list.last()) == at implies #[trigger] given(list, at, n) by {
            assert(place(list[n - 1]) == at);
        }
        assert(place(list.last()) == wait_place(before.wait));
        assert(wait_place(before.wait) < wait_place(end.wait));
        assert(given(init, 0, n - 1) ==> given(list, 0, n));
        assert(given(init, 1, n - 1) ==> given(list, 1, n));
        assert(given(init, 2, n - 1) ==> given(list, 2, n));
        assert(given(init, 4, n - 1) ==> given(list, 4, n));
        assert forall|i: int| 0 <= i < n implies place(#[trigger] list[i]) < wait_place(
            end.wait,
        ) by {
            if i < n - 1 {
                assert(list[i] == init[i]);
            }
        }
        assert forall|i: int, j: int| 0 <= i < j < n implies place(#[trigger] list[i]) < place(
            #[trigger] list[j],
        ) by {
            assert(list[i] == init[i]);
            if j < n - 1 {
                assert(list[j] == init[j]);
            }
        }
        assert forall|i: int| 0 <= i < n - 1 implies tick_error_of(#[trigger] list[i]) is None by {
            assert(list[i] == init[i]);
            if i == n - 2 {
                assert(init[i] == init.last());
            }
        }
    }
}

/// What a tick is told, it is told in one order, and nothing twice. Removed paths
/// are forgotten before anything is found out of the changes, and have left the
/// graph before discovery runs and before the changes are looked at again.
/// Where discovery fails, that is the last answer, and no plan is made.
pub proof fn lemma_tick_is_told_in_order<E>(
    project: Project,
    changes: Seq<(Seq<char>, ChangeKind)>,
    hooked: bool,
    list: Seq<TickAnswer<E>>,
    j: int,
)
    requires
        tell(project, Tick::opened(changes, hooked), list),
        0 <= j < list.len(),
    ensures
        forall|i: int| 0 <= i < j ==> place(#[trigger] list[i]) < place(list[j]),
        removed_paths(changes).len() > 0 && !(list[j] is Purged) ==> given(list, 0, j),
        removed_paths(changes).len() > 0 && place(list[j]) > 2 ==> given(list, 2, j),
        list[j] is Discovered ==> hooked,
        tick_error_of(list[j]) is Some ==> j == list.len() - 1 && told_all(
            project,
            Tick::opened(changes, hooked),
            list,
        ).wait is Failed,
{
    let tick = Tick::opened(changes, hooked);
    lemma_told_in_order(project, changes, hooked, list);
    let so_far = list.take(j);
    assert(tell(project, tick, so_far)) by {
        assert forall|i: int| 0 <= i < so_far.len() implies told_all(
            project,
            tick,
            #[trigger] so_far.take(i),
        ).answers(so_far[i]) by {
            assert(so_far.take(i) =~= list.take(i));
        }
    }
    lemma_told_in_order(project, changes, hooked, so_far);
    lemma_waits_for_hook(project, changes, hooked, so_far);
    let before = told_all(project, tick, so_far);
    assert(before.answers(list[j]));
    assert(place(list[j]) == wait_place(before.wait));
    assert forall|at: nat| #[trigger] given(so_far, at, j) implies given(list, at, j) by {
        let i = choose|i: int| 0 <= i < j && place(#[trigger] so_far[i]) == at;
        assert(place(list[i]) == at);
    }
    assert(given(so_far, 0, j) ==> given(list, 0, j));
    assert(given(so_far, 2, j) ==> given(list, 2, j));
    if tick_error_of(list[j]) is Some && j < list.len() - 1 {
        assert(tick_error_of(list[j]) is None);
    }
    if j == list.len() - 1 {
        assert(list[j] == list.last());
    }
}

proof fn lemma_waits_for_hook<E>(
    project: Project,
    changes: Seq<(Seq<char>, ChangeKind)>,
    hooked: bool,
    list: Seq<TickAnswer<E>>,
)
    requires
        tell(project, Tick::opened(changes, hooked), list),
    ensures
        ({
            let end = told_all(project, Tick::opened(changes, hooked), list);
            let due = hooked && created_paths(end.live).len() > 0;
            &&& end.wait is Discover ==> due
            &&& wait_place(end.wait) >= 4 ==> (given(list, 3, list.len() as int) <==> due)
        }),
    decreases list.len(),
{
    let tick = Tick::opened(changes, hooked);
    if list.len() > 0 {
        let init = list.drop_last();
        let n = list.len() as int;
        lemma_tell_step(project, tick, list);
        lemma_waits_for_hook(project, changes, hooked, init);
        lemma_told_in_order(project, changes, hooked, init);
        assert(list[n - 1] == list.last());
        if given(init, 3, n - 1) {
            let i = choose|i: int| 0 <= i < n - 1 && place(#[trigger] init[i]) == 3;
            assert(place(list[i]) == 3);
        }
        if place(list.last()) == 3 {
            assert(given(list, 3, n));
        }
        if given(list, 3, n) && place(list.last()) != 3 {
            let i = choose|i: int| 0 <= i < n && place(#[trigger] list[i]) == 3;
            assert(place(init[i]) == 3);
            assert(given(init, 3, n - 1));
        }
    }
}

/// The plan of a tick is made of what it was told: of the changes under the
/// kinds that they really are, of what is known of them and of the removed
/// paths, of the pages that read those, and of what was discovered. What was not
/// asked counts as nothing: the graph is asked where something was removed, and
/// the hook, if there is one, where something was created.
pub proof fn lemma_plan_is_made_of_what_was_told<E>(
    project: Project,
    changes: Seq<(Seq<char>, ChangeKind)>,
    hooked: bool,
    list: Seq<TickAnswer<E>>,
)
    requires
        tell(project, Tick::opened(changes, hooked), list),
        told_all(project, Tick::opened(changes, hooked), list).wait is Planned,
    ensures
        ({
            let end = told_all(project, Tick::opened(changes, hooked), list);
            let n = list.len() as int;
            &&& n >= 3
            &&& list[n - 1] is Pages
            &&& list[n - 2] is Facts
            &&& end.told == told_by(list)
            &&& answers_about(end.live, removed_paths(changes), end.told)
            &&& given(list, 2, n) <==> removed_paths(changes).len() > 0
            &&& given(list, 3, n) <==> hooked && created_paths(end.live).len() > 0
            &&& end.wait->Planned_0 == settled(
                tick_plan(project, end.live, end.told),
                page_key_set(list[n - 1]->Pages_0@),
            )
            &&& exists|i: int|
                0 <= i < n && #[trigger] list[i] is Inspected && end.live == live_changes(
                    normalized(changes, list[i]->Inspected_0@),
                )
        }),
{
    let tick = Tick::opened(changes, hooked);
    let n = list.len() as int;
    lemma_told_in_order(project, changes, hooked, list);
    lemma_tell_step(project, tick, list);
    let init = list.drop_last();
    let before = told_all(project, tick, init);
    lemma_told_in_order(project, changes, hooked, init);
    assert(before.wait is Pages);
    assert(init.len() > 0);
    lemma_tell_step(project, tick, init);
    lemma_live_is_real(project, changes, hooked, init);
    let i = choose|i: int|
        0 <= i < init.len() && #[trigger] init[i] is Inspected && before.live == live_changes(
            normalized(changes, init[i]->Inspected_0@),
        );
    assert(list[i] is Inspected);
    lemma_told_in_order(project, changes, hooked, init.drop_last());
    lemma_told_by(project, tick, list);
    lemma_waits_for_hook(project, changes, hooked, list);
    lemma_detaches_what_is_gone(project, changes, hooked, list);
    assert(init.last() == list[n - 2]);
}

proof fn lemma_detaches_what_is_gone<E>(
    project: Project,
    changes: Seq<(Seq<char>, ChangeKind)>,
    hooked: bool,
    list: Seq<TickAnswer<E>>,
)
    requires
        tell(project, Tick::opened(changes, hooked), list),
    ensures
        ({
            let end = told_all(project, Tick::opened(changes, hooked), list);
            let n = list.len() as int;
            end.wait is Detach || given(list, 2, n) ==> removed_paths(changes).len() > 0
        }),
    decreases list.len(),
{
    let tick = Tick::opened(changes, hooked);
    if list.len() > 0 {
        let init = list.drop_last();
        let n = list.len() as int;
        lemma_tell_step(project, tick, list);
        lemma_detaches_what_is_gone(project, changes, hooked, init);
        lemma_told_in_order(project, changes, hooked, init);
        if given(list, 2, n) {
            let i = choose|i: int| 0 <= i < n && place(#[trigger] list[i]) == 2;
            if i < n - 1 {
                assert(place(init[i]) == 2);
                assert(given(init, 2, n - 1));
            }
        }
    }
}

proof fn lemma_live_is_real<E>(
    project: Project,
    changes: Seq<(Seq<char>, ChangeKind)>,
    hooked: bool,
    list: Seq<TickAnswer<E>>,
)
    requires
        tell(project, Tick::opened(changes, hooked), list),
        wait_place(told_all(project, Tick::opened(changes, hooked), list).wait) >= 2,
    ensures
        exists|i: int|
            0 <= i < list.len() && #[trigger] list[i] is Inspected && told_all(
                project,
                Tick::opened(changes, hooked),
                list,
            ).live == live_changes(normalized(changes, list[i]->Inspected_0@)),
    decreases list.len(),
{
    let tick = Tick::opened(changes, hooked);
    let init = list.drop_last();
    lemma_tell_step(project, tick, list);
    lemma_told_in_order(project, changes, hooked, init);
    let before = told_all(project, tick, init);
    let n = list.len() as int;
    assert(list[n - 1] == list.last());
    if !(list.last() is Inspected) {
        lemma_live_is_real(project, changes, hooked, init);
        let i = choose|i: int|
            0 <= i < init.len() && #[trigger] init[i] is Inspected && before.live == live_changes(
                normalized(changes, init[i]->Inspected_0@),
            );
        assert(list[i] is Inspected);
    }
}

} // verus!
