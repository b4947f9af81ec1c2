//! The loop that turns watch events into ticks, as a machine that says what is
//! to be done next and is told what came of it.
//!
//! The boot render comes first, and what it depends on is watched before the
//! first event is waited for. Each batch of events is filtered, refreshes the
//! plugins where it has to, and is ticked; what the tick depends on is watched
//! before its outcome is reported. A tick that fails does not end the loop.

use vstd::prelude::*;

use crate::facts::{changes_view, Change, ChangeKind};
use crate::plan::texts;
use crate::text::{
    eq_ignore_ascii_case, parse_u64, same_ignoring_ascii_case, trim_chars, trimmed, unsigned_value,
};

verus! {

/// The line that says that the next tick will panic.
pub const PANIC_ARMED_LINE: &'static str = "[zfb-timing] fault armed: ZFB_DEV_TEST_ORCH_PANIC_ON_TICK";

/// The line that says that the tick panics now.
pub const PANIC_FIRED_LINE: &'static str = "[zfb-timing] fault fired: ZFB_DEV_TEST_ORCH_PANIC_ON_TICK";

/// The line that says that the loop stops now.
pub const STOP_FIRED_LINE: &'static str = "[zfb-timing] fault fired: ZFB_DEV_TEST_ORCH_STOP_MS";

/// The value says neither nothing nor no.
pub open spec fn armed_by(raw: Seq<char>) -> bool {
    let t = trimmed(raw);
    !(t.len() == 0 || same_ignoring_ascii_case(t, "0"@) || same_ignoring_ascii_case(t, "false"@))
}

/// Whether the value of `ZFB_DEV_TEST_ORCH_PANIC_ON_TICK` makes the next tick
/// panic: where it is there, and is not empty, `0` or `false`.
pub fn orch_panic_on_tick_armed(raw: Option<&str>) -> (r: bool)
    ensures
        r == match raw {
            Some(v) => armed_by(v@),
            None => false,
        },
{
    match raw {
        None => false,
        Some(v) => {
            let t = trim_chars(v);
            !(t.len() == 0 || eq_ignore_ascii_case(&t, "0") || eq_ignore_ascii_case(&t, "false"))
        },
    }
}

/// After how many milliseconds the value of `ZFB_DEV_TEST_ORCH_STOP_MS` stops the
/// loop, if it is a number.
pub fn orch_stop_ms_decision(raw: Option<&str>) -> (r: Option<u64>)
    ensures
        r == match raw {
            Some(v) => unsigned_value(trimmed(v@)),
            None => None,
        },
{
    match raw {
        None => None,
        Some(v) => {
            let t = trim_chars(v);
            parse_u64(&t)
        },
    }
}

/// A watch event, with what is known of its path when it comes in.
#[derive(Debug)]
pub struct Intake {
    /// The event.
    pub change: Change,
    /// Whether the path is one whose events are to be ignored.
    pub suppressed: bool,
    /// Whether a plugin's loader watches the path.
    pub plugin_watch_target: bool,
}

/// The events that are not to be ignored, in order.
pub open spec fn unsuppressed(list: Seq<Intake>) -> Seq<Intake> {
    list.filter(|i: Intake| !i.suppressed)
}

/// The paths and kinds of the events.
pub open spec fn intake_changes(list: Seq<Intake>) -> Seq<(Seq<char>, ChangeKind)> {
    list.map_values(|i: Intake| i.change@)
}

/// One of the events is on a path that a plugin's loader watches.
pub open spec fn touches_plugins(list: Seq<Intake>) -> bool {
    exists|i: int| 0 <= i < list.len() && (#[trigger] list[i]).plugin_watch_target
}

/// Leaves out the events that are to be ignored, whatever their kinds.
pub fn retain_unsuppressed_changes(changes: Vec<Intake>) -> (r: Vec<Intake>)
    ensures
        r@ == unsuppressed(changes@),
{
    let ghost all = changes@;
    let ghost keep = |i: Intake| !i.suppressed;
    let mut left = changes;
    let mut out: Vec<Intake> = Vec::new();
    let ghost mut done: int = 0;
    assert(all.take(0) =~= Seq::empty());
    assert(out@ =~= all.take(0).filter(keep)) by {
        reveal(Seq::filter);
    }
    while left.len() > 0
        invariant
            0 <= done <= all.len(),
            left@ == all.skip(done),
            out@ == all.take(done).filter(keep),
            keep == (|i: Intake| !i.suppressed),
        decreases left@.len(),
    {
        let one = left.remove(0);
        proof {
            reveal(Seq::filter);
            assert(one == all[done]);
            assert(all.take(done + 1).drop_last() =~= all.take(done));
            assert(all.take(done + 1).last() == one);
            assert(left@ =~= all.skip(done + 1));
            done = done + 1;
        }
        if !one.suppressed {
            out.push(one);
        }
    }
    assert(all.take(done) =~= all);
    out
}

/// Whether a batch makes the plugins refresh: one of its events is on a path
/// that a plugin's loader watches, whatever its kind.
pub fn pre_tick_refresh_applies(changes: &Vec<Intake>) -> (r: bool)
    ensures
        r == touches_plugins(changes@),
{
    let mut i: usize = 0;
    while i < changes.len()
        invariant
            i <= changes@.len(),
            forall|k: int| 0 <= k < i ==> !(#[trigger] changes@[k]).plugin_watch_target,
        decreases changes@.len() - i,
    {
        if changes[i].plugin_watch_target {
            return true;
        }
        i = i + 1;
    }
    false
}

/// What came of a tick that ran to its end.
#[derive(Debug, Clone, Copy, PartialEq, Eq, Structural)]
pub enum TickEnd {
    /// It did something.
    Outcome,
    /// There was nothing to do.
    Noop,
    /// It failed.
    Failed,
}

/// What the loop waits for.
pub enum DrainWait {
    /// The boot render.
    Boot,
    /// The report of what the boot render did.
    ReportBoot,
    /// The watches on what the boot render depends on.
    RegisterBoot,
    /// The values of the fault knobs.
    Knobs,
    /// The next events.
    Receive,
    /// The plugin refresh, before the batch is ticked.
    Refresh { changes: Seq<(Seq<char>, ChangeKind)> },
    /// The tick.
    Tick { changes: Seq<(Seq<char>, ChangeKind)> },
    /// The watches on what the tick depends on.
    Register(TickEnd),
    /// The report of what the tick did.
    Report,
    /// Nothing: there are no more events.
    Stopped,
    /// Nothing: the tick panicked, and so does the loop.
    Panicked,
    /// Nothing: the tick is lost, and with it what it held.
    Lost,
}

/// Where the loop stands.
pub struct Drain {
    /// Whether there is a hook that refreshes plugins.
    pub refreshes: bool,
    /// Whether the next tick panics.
    pub panics: bool,
    /// After how many milliseconds the loop stops.
    pub stops_after: Option<u64>,
    pub wait: DrainWait,
}

/// What came of what the loop waited for.
#[derive(Debug)]
pub enum DrainAnswer<'a> {
    /// Whether the boot render has something to report.
    Booted(bool),
    /// The report has been made.
    Reported,
    /// The watches are there.
    Registered,
    /// The values of the fault knobs.
    Knobs { panic_on_tick: Option<&'a str>, stop_ms: Option<&'a str> },
    /// The next events, all that are there; nothing where there will be no more,
    /// or the time to stop has come.
    Received(Option<Vec<Intake>>),
    /// Whether the plugins were refreshed.
    Refreshed(bool),
    /// What came of the tick.
    Ticked(TickEnd),
    /// The tick panicked.
    TickPanicked,
    /// The tick did not come back.
    TickLost,
}

/// The answer is one to what the loop waits for.
pub open spec fn drain_answers(wait: DrainWait, answer: DrainAnswer) -> bool {
    match wait {
        DrainWait::Boot => answer is Booted,
        DrainWait::ReportBoot => answer is Reported,
        DrainWait::RegisterBoot => answer is Registered,
        DrainWait::Knobs => answer is Knobs,
        DrainWait::Receive => answer is Received,
        DrainWait::Refresh { .. } => answer is Refreshed,
        DrainWait::Tick { .. } => answer is Ticked || answer is TickPanicked || answer is TickLost,
        DrainWait::Register(_) => answer is Registered,
        DrainWait::Report => answer is Reported,
        _ => false,
    }
}

impl Drain {
    /// Where the loop stands before anything is done.
    pub open spec fn opened(boots: bool, refreshes: bool) -> Drain {
        Drain {
            refreshes,
            panics: false,
            stops_after: None,
            wait: if boots {
                DrainWait::Boot
            } else {
                DrainWait::RegisterBoot
            },
        }
    }

    pub open spec fn at(self, wait: DrainWait) -> Drain {
        Drain { wait, ..self }
    }

    /// Where the loop stands after a batch: nothing is done for one of which
    /// every event is to be ignored.
    pub open spec fn after_batch(self, batch: Seq<Intake>) -> Drain {
        let kept = unsuppressed(batch);
        let changes = intake_changes(kept);
        if kept.len() == 0 {
            self.at(DrainWait::Receive)
        } else if self.refreshes && touches_plugins(kept) {
            self.at(DrainWait::Refresh { changes })
        } else {
            self.at(DrainWait::Tick { changes })
        }
    }

    /// Where the loop stands after an answer. A refresh that failed does not
    /// keep the batch from being ticked, and a tick that failed does not end
    /// the loop.
    pub open spec fn after(self, answer: DrainAnswer) -> Drain {
        match answer {
            DrainAnswer::Booted(reports) => if reports {
                self.at(DrainWait::ReportBoot)
            } else {
                self.at(DrainWait::RegisterBoot)
            },
            DrainAnswer::Reported => if self.wait is ReportBoot {
                self.at(DrainWait::RegisterBoot)
            } else {
                self.at(DrainWait::Receive)
            },
            DrainAnswer::Registered => match self.wait {
                DrainWait::Register(TickEnd::Outcome) => self.at(DrainWait::Report),
                DrainWait::Register(_) => self.at(DrainWait::Receive),
                _ => self.at(DrainWait::Knobs),
            },
            DrainAnswer::Knobs { panic_on_tick, stop_ms } => Drain {
                panics: match panic_on_tick {
                    Some(v) => armed_by(v@),
                    None => false,
                },
                stops_after: match stop_ms {
                    Some(v) => unsigned_value(trimmed(v@)),
                    None => None,
                },
                wait: DrainWait::Receive,
                ..self
            },
            DrainAnswer::Received(None) => self.at(DrainWait::Stopped),
            DrainAnswer::Received(Some(batch)) => self.after_batch(batch@),
            DrainAnswer::Refreshed(_) => self.at(
                DrainWait::Tick { changes: self.wait->Refresh_changes },
            ),
            DrainAnswer::Ticked(end) => self.at(DrainWait::Register(end)),
            DrainAnswer::TickPanicked => self.at(DrainWait::Panicked),
            DrainAnswer::TickLost => self.at(DrainWait::Lost),
        }
    }
}

#[derive(Debug)]
enum Stage {
    Boot,
    ReportBoot,
    RegisterBoot,
    Knobs,
    Receive,
    Refresh { changes: Vec<Change> },
    Tick { changes: Vec<Change> },
    Register(TickEnd),
    Report,
    Stopped,
    Panicked,
    Lost,
}

impl Stage {
    spec fn stands_for(&self) -> DrainWait {
        match self {
            Stage::Boot => DrainWait::Boot,
            Stage::ReportBoot => DrainWait::ReportBoot,
            Stage::RegisterBoot => DrainWait::RegisterBoot,
            Stage::Knobs => DrainWait::Knobs,
            Stage::Receive => DrainWait::Receive,
            Stage::Refresh { changes } => DrainWait::Refresh { changes: changes_view(changes@) },
            Stage::Tick { changes } => DrainWait::Tick { changes: changes_view(changes@) },
            Stage::Register(end) => DrainWait::Register(*end),
            Stage::Report => DrainWait::Report,
            Stage::Stopped => DrainWait::Stopped,
            Stage::Panicked => DrainWait::Panicked,
            Stage::Lost => DrainWait::Lost,
        }
    }
}

/// What is to be done next in the loop.
#[derive(Debug)]
pub enum DrainAction {
    /// Run the boot render.
    Boot,
    /// Report the last outcome.
    Report,
    /// Watch what the last render depends on.
    Register,
    /// Read the fault knobs.
    ReadKnobs,
    /// Wait for events, and take all that are there. Stop so many milliseconds
    /// after the knobs were read, before any event that is there by then.
    Receive { stops_after: Option<u64> },
    /// Refresh the plugins, with these changed paths.
    Refresh { paths: Vec<String> },
    /// Tick these changes, or panic.
    Tick { changes: Vec<Change>, panics: bool },
    /// Nothing: the loop is over.
    Stop,
    /// Panic as the tick did.
    Panic,
    /// Nothing: the loop cannot go on.
    Fail,
}

/// The action is the one that the loop waits for.
pub open spec fn drain_acts(drain: Drain, action: DrainAction) -> bool {
    match drain.wait {
        DrainWait::Boot => action is Boot,
        DrainWait::ReportBoot => action is Report,
        DrainWait::RegisterBoot => action is Register,
        DrainWait::Knobs => action is ReadKnobs,
        DrainWait::Receive => action == (DrainAction::Receive { stops_after: drain.stops_after }),
        DrainWait::Refresh { changes } => action matches DrainAction::Refresh { paths } && texts(
            paths@,
        ) == changes.map_values(|c: (Seq<char>, ChangeKind)| c.0),
        DrainWait::Tick { changes } => action matches DrainAction::Tick { changes: c, panics }
            && changes_view(c@) == changes && panics == drain.panics,
        DrainWait::Register(_) => action is Register,
        DrainWait::Report => action is Report,
        DrainWait::Stopped => action is Stop,
        DrainWait::Panicked => action is Panic,
        DrainWait::Lost => action is Fail,
    }
}

/// The loop.
#[derive(Debug)]
pub struct DrainLoop {
    refreshes: bool,
    panics: bool,
    stops_after: Option<u64>,
    stage: Stage,
}

impl View for DrainLoop {
    type V = Drain;

    closed spec fn view(&self) -> Drain {
        Drain {
            refreshes: self.refreshes,
            panics: self.panics,
            stops_after: self.stops_after,
            wait: self.stage.stands_for(),
        }
    }
}

fn changes_of(batch: &Vec<Intake>) -> (r: Vec<Change>)
    ensures
        changes_view(r@) == intake_changes(batch@),
{
    let mut out: Vec<Change> = Vec::new();
    let mut i: usize = 0;
    while i < batch.len()
        invariant
            i <= batch@.len(),
            changes_view(out@) == intake_changes(batch@).take(i as int),
        decreases batch@.len() - i,
    {
        let ghost before = changes_view(out@);
        let change = Change { path: batch[i].change.path.clone(), kind: batch[i].change.kind };
        assert(change@ == batch@[i as int].change@);
        out.push(change);
        assert(changes_view(out@) =~= before.push(batch@[i as int].change@));
        i = i + 1;
        assert(changes_view(out@) =~= intake_changes(batch@).take(i as int));
    }
    assert(changes_view(out@) =~= intake_changes(batch@));
    out
}

fn copy_changes(list: &Vec<Change>) -> (r: Vec<Change>)
    ensures
        changes_view(r@) == changes_view(list@),
{
    let mut out: Vec<Change> = Vec::new();
    let mut i: usize = 0;
    while i < list.len()
        invariant
            i <= list@.len(),
            changes_view(out@) == changes_view(list@).take(i as int),
        decreases list@.len() - i,
    {
        let ghost before = changes_view(out@);
        let change = Change { path: list[i].path.clone(), kind: list[i].kind };
        assert(change@ == list@[i as int]@);
        out.push(change);
        assert(changes_view(out@) =~= before.push(list@[i as int]@));
        i = i + 1;
        assert(changes_view(out@) =~= changes_view(list@).take(i as int));
    }
    assert(changes_view(out@) =~= changes_view(list@));
    out
}

fn paths_of(list: &Vec<Change>) -> (r: Vec<String>)
    ensures
        texts(r@) == changes_view(list@).map_values(|c: (Seq<char>, ChangeKind)| c.0),
{
    let ghost all = changes_view(list@).map_values(|c: (Seq<char>, ChangeKind)| c.0);
    let mut out: Vec<String> = Vec::new();
    let mut i: usize = 0;
    while i < list.len()
        invariant
            i <= list@.len(),
            all == changes_view(list@).map_values(|c: (Seq<char>, ChangeKind)| c.0),
            texts(out@) == all.take(i as int),
        decreases list@.len() - i,
    {
        let ghost before = texts(out@);
        out.push(list[i].path.clone());
        assert(texts(out@) =~= before.push(all[i as int]));
        i = i + 1;
        assert(texts(out@) =~= all.take(i as int));
    }
    assert(texts(out@) =~= all);
    out
}

impl DrainLoop {
    /// The loop, before anything is done. `boots` is whether there is a boot
    /// render, `refreshes` whether there is a hook that refreshes plugins.
    pub fn start(boots: bool, refreshes: bool) -> (r: DrainLoop)
        ensures
            r@ == Drain::opened(boots, refreshes),
    {
        DrainLoop {
            refreshes,
            panics: false,
            stops_after: None,
            stage: if boots {
                Stage::Boot
            } else {
                Stage::RegisterBoot
            },
        }
    }

    /// What is to be done next.
    pub fn action(&self) -> (r: DrainAction)
        ensures
            drain_acts(self@, r),
    {
        match &self.stage {
            Stage::Boot => DrainAction::Boot,
            Stage::ReportBoot => DrainAction::Report,
            Stage::RegisterBoot => DrainAction::Register,
            Stage::Knobs => DrainAction::ReadKnobs,
            Stage::Receive => DrainAction::Receive { stops_after: self.stops_after },
            Stage::Refresh { changes } => DrainAction::Refresh { paths: paths_of(changes) },
            Stage::Tick { changes } => DrainAction::Tick {
                changes: copy_changes(changes),
                panics: self.panics,
            },
            Stage::Register(_) => DrainAction::Register,
            Stage::Report => DrainAction::Report,
            Stage::Stopped => DrainAction::Stop,
            Stage::Panicked => DrainAction::Panic,
            Stage::Lost => DrainAction::Fail,
        }
    }

    fn on_batch(&mut self, batch: Vec<Intake>)
        ensures
            final(self)@ == old(self)@.after_batch(batch@),
    {
        let kept = retain_unsuppressed_changes(batch);
        if kept.len() == 0 {
            self.stage = Stage::Receive;
            return;
        }
        let changes = changes_of(&kept);
        if self.refreshes && pre_tick_refresh_applies(&kept) {
            self.stage = Stage::Refresh { changes };
        } else {
            self.stage = Stage::Tick { changes };
        }
    }

    /// Takes the answer to what the loop waited for.
    pub fn resume(&mut self, answer: DrainAnswer)
        requires
            drain_answers(old(self)@.wait, answer),
        ensures
            final(self)@ == old(self)@.after(answer),
    {
        match answer {
            DrainAnswer::Booted(reports) => {
                self.stage = if reports {
                    Stage::ReportBoot
                } else {
                    Stage::RegisterBoot
                };
            },
            DrainAnswer::Reported => {
                let first = matches!(self.stage, Stage::ReportBoot);
                self.stage = if first {
                    Stage::RegisterBoot
                } else {
                    Stage::Receive
                };
            },
            DrainAnswer::Registered => {
                self.stage = match &self.stage {
                    Stage::Register(TickEnd::Outcome) => Stage::Report,
                    Stage::Register(_) => Stage::Receive,
                    _ => Stage::Knobs,
                };
            },
            DrainAnswer::Knobs { panic_on_tick, stop_ms } => {
                self.panics = orch_panic_on_tick_armed(panic_on_tick);
                self.stops_after = orch_stop_ms_decision(stop_ms);
                self.stage = Stage::Receive;
            },
            DrainAnswer::Received(None) => {
                self.stage = Stage::Stopped;
            },
            DrainAnswer::Received(Some(batch)) => {
                self.on_batch(batch);
            },
            DrainAnswer::Refreshed(_) => {
                let mut stage = Stage::Receive;
                std::mem::swap(&mut stage, &mut self.stage);
                if let Stage::Refresh { changes } = stage {
                    self.stage = Stage::Tick { changes };
                }
            },
            DrainAnswer::Ticked(end) => {
                self.stage = Stage::Register(end);
            },
            DrainAnswer::TickPanicked => {
                self.stage = Stage::Panicked;
            },
            DrainAnswer::TickLost => {
                self.stage = Stage::Lost;
            },
        }
    }
}

/// An event that is to be ignored reaches neither the plugins nor a tick: what
/// a batch brings to either is what is left of it, and a batch of which nothing
/// is left brings nothing.
pub proof fn lemma_suppressed_never_ticks(drain: Drain, batch: Seq<Intake>)
    ensures
        ({
            let next = drain.after_batch(batch);
            let kept = unsuppressed(batch);
            &&& kept.len() == 0 ==> next.wait is Receive
            &&& kept.len() > 0 ==> (next.wait == DrainWait::Tick { changes: intake_changes(kept) }
                || next.wait == DrainWait::Refresh { changes: intake_changes(kept) })
            &&& forall|i: int| 0 <= i < kept.len() ==> !(#[trigger] kept[i]).suppressed
        }),
{
    let keep = |i: Intake| !i.suppressed;
    let kept = unsuppressed(batch);
    assert forall|i: int| 0 <= i < kept.len() implies !(#[trigger] kept[i]).suppressed by {
        batch.lemma_filter_pred(keep, i);
        assert(keep(kept[i]));
    }
}

/// Where a batch touches the plugins, they are refreshed before it is ticked,
/// and it is ticked whether that went well or not.
pub proof fn lemma_refresh_comes_first(drain: Drain, batch: Seq<Intake>, ok: bool)
    requires
        drain.refreshes,
        touches_plugins(unsuppressed(batch)),
    ensures
        ({
            let changes = intake_changes(unsuppressed(batch));
            let next = drain.after_batch(batch);
            &&& next.wait == DrainWait::Refresh { changes }
            &&& next.after(DrainAnswer::Refreshed(ok)).wait == DrainWait::Tick { changes }
        }),
{
}

/// The loop ends only where there are no more events, or a tick took it along:
/// whatever a tick reports, the loop comes back to wait for events, with what
/// the tick depends on watched.
pub proof fn lemma_tick_keeps_loop_alive(drain: Drain, end: TickEnd)
    requires
        drain.wait is Tick,
    ensures
        ({
            let ticked = drain.after(DrainAnswer::Ticked(end));
            let watched = ticked.after(DrainAnswer::Registered);
            &&& ticked.wait == DrainWait::Register(end)
            &&& end == TickEnd::Outcome ==> watched.wait is Report && watched.after(
                DrainAnswer::Reported,
            ).wait is Receive
            &&& end != TickEnd::Outcome ==> watched.wait is Receive
        }),
{
}

/// No event is waited for before the boot render is done, what it depends on is
/// watched and the knobs are read: a slow boot can set off neither fault.
pub proof fn lemma_boot_comes_first(boots: bool, refreshes: bool, reports: bool)
    ensures
        ({
            let first = Drain::opened(boots, refreshes);
            let booted = if boots {
                first.after(DrainAnswer::Booted(reports))
            } else {
                first
            };
            let reported = if boots && reports {
                booted.after(DrainAnswer::Reported)
            } else {
                booted
            };
            &&& boots ==> first.wait is Boot
            &&& boots && reports ==> booted.wait is ReportBoot
            &&& reported.wait is RegisterBoot
            &&& reported.after(DrainAnswer::Registered).wait is Knobs
            &&& !reported.panics && reported.stops_after is None
        }),
{
}

} // verus!
