//! What reaches the plugins and the ticks of what the watcher reports, and what
//! the fault knobs say.

use vstd::prelude::*;

use crate::drain::{
    armed_by, drain_acts, intake_changes, touches_plugins, unsuppressed, Drain, DrainAction,
    DrainAnswer, Intake,
};
use crate::facts::{changes_view, ChangeKind};
use crate::pipeline::timing::switched_on;
use crate::plan::texts;
use crate::text::{
    ascii_lower, same_ignoring_ascii_case, trim_end, trim_start, trimmed, unsigned_value,
    white_space,
};

verus! {

/// Where the events are that are not to be ignored.
spec fn kept_places(batch: Seq<Intake>) -> Seq<int>
    decreases batch.len(),
{
    if batch.len() == 0 {
        Seq::empty()
    } else {
        let before = kept_places(batch.drop_last());
        if batch.last().suppressed {
            before
        } else {
            before.push(batch.len() - 1)
        }
    }
}

/// `idx` says where in the batch the events are that are not to be ignored: all
/// of them, and in order.
pub open spec fn keeps_exactly(batch: Seq<Intake>, idx: Seq<int>) -> bool {
    &&& forall|k: int|
        0 <= k < idx.len() ==> 0 <= (#[trigger] idx[k]) < batch.len() && !batch[idx[k]].suppressed
    &&& forall|k: int, l: int| 0 <= k < l < idx.len() ==> #[trigger] idx[k] < #[trigger] idx[l]
    &&& forall|i: int|
        0 <= i < batch.len() && !(#[trigger] batch[i]).suppressed ==> idx.contains(i)
}

proof fn lemma_kept_places(batch: Seq<Intake>)
    ensures
        keeps_exactly(batch, kept_places(batch)),
        unsuppressed(batch).len() == kept_places(batch).len(),
        forall|k: int|
            0 <= k < kept_places(batch).len() ==> (#[trigger] unsuppressed(batch)[k])
                == batch[kept_places(batch)[k]],
    decreases batch.len(),
{
    reveal(Seq::filter);
    let idx = kept_places(batch);
    if batch.len() > 0 {
        let init = batch.drop_last();
        lemma_kept_places(init);
        let before = kept_places(init);
        assert(unsuppressed(batch) == if batch.last().suppressed {
            unsuppressed(init)
        } else {
            unsuppressed(init).push(batch.last())
        });
        assert forall|k: int| 0 <= k < idx.len() implies 0 <= (#[trigger] idx[k]) < batch.len()
            && !batch[idx[k]].suppressed && unsuppressed(batch)[k] == batch[idx[k]] by {
            if k < before.len() {
                assert(idx[k] == before[k]);
                assert(init[before[k]] == batch[before[k]]);
                assert(unsuppressed(init)[k] == init[before[k]]);
            }
        }
        assert forall|k: int, l: int| 0 <= k < l < idx.len() implies #[trigger] idx[k]
            < #[trigger] idx[l] by {
            assert(idx[k] == before[k]);
            if l < before.len() {
                assert(idx[l] == before[l]);
            }
        }
        assert forall|i: int|
            0 <= i < batch.len() && !(#[trigger] batch[i]).suppressed implies idx.contains(i) by {
            if i < init.len() {
                assert(init[i] == batch[i]);
                let k = choose|k: int| 0 <= k < before.len() && before[k] == i;
                assert(idx[k] == i);
            } else {
                assert(idx[before.len() as int] == i);
            }
        }
        assert forall|k: int| 0 <= k < idx.len() implies (#[trigger] unsuppressed(batch)[k])
            == batch[idx[k]] by {
            assert(0 <= idx[k] < batch.len());
        }
    }
}

/// The changes that a tick is started with are the events of the batch that are
/// not to be ignored, all of them and in order, each with the path and the kind
/// that the watcher reported. So it is whether the plugins were refreshed before
/// or not.
pub proof fn lemma_tick_gets_what_was_reported(
    drain: Drain,
    batch: Vec<Intake>,
    refreshed: bool,
    action: DrainAction,
) -> (idx: Seq<int>)
    requires
        ({
            let next = drain.after(DrainAnswer::Received(Some(batch)));
            drain_acts(next, action) || next.wait is Refresh && drain_acts(
                next.after(DrainAnswer::Refreshed(refreshed)),
                action,
            )
        }),
    ensures
        keeps_exactly(batch@, idx),
        action matches DrainAction::Tick { changes, panics } ==> {
            &&& panics == drain.panics
            &&& changes@.len() == idx.len()
            &&& forall|k: int|
                0 <= k < idx.len() ==> (#[trigger] changes@[k]).path@
                    == batch@[idx[k]].change.path@ && changes@[k].kind
                    == batch@[idx[k]].change.kind
        },
        action matches DrainAction::Refresh { paths } ==> {
            &&& paths@.len() == idx.len()
            &&& forall|k: int|
                0 <= k < idx.len() ==> (#[trigger] paths@[k])@ == batch@[idx[k]].change.path@
        },
        action is Tick || action is Refresh || action is Receive,
        action is Receive <==> idx.len() == 0,
{
    let idx = kept_places(batch@);
    lemma_kept_places(batch@);
    let kept = unsuppressed(batch@);
    let all = intake_changes(kept);
    assert(all.len() == idx.len());
    assert forall|k: int| 0 <= k < idx.len() implies (#[trigger] all[k]) == (
        batch@[idx[k]].change.path@,
        batch@[idx[k]].change.kind,
    ) by {
        assert(kept[k] == batch@[idx[k]]);
    }
    match action {
        DrainAction::Tick { changes, panics } => {
            assert(changes_view(changes@) == all);
            assert(changes_view(changes@).len() == changes@.len());
            assert forall|k: int| 0 <= k < idx.len() implies (#[trigger] changes@[k]).path@
                == batch@[idx[k]].change.path@ && changes@[k].kind
                == batch@[idx[k]].change.kind by {
                assert(changes_view(changes@)[k] == changes@[k]@);
                assert(all[k] == (batch@[idx[k]].change.path@, batch@[idx[k]].change.kind));
            }
        },
        DrainAction::Refresh { paths } => {
            let wanted = all.map_values(|c: (Seq<char>, ChangeKind)| c.0);
            assert(texts(paths@) == wanted);
            assert(texts(paths@).len() == paths@.len());
            assert forall|k: int| 0 <= k < idx.len() implies (#[trigger] paths@[k])@
                == batch@[idx[k]].change.path@ by {
                assert(texts(paths@)[k] == paths@[k]@);
                assert(wanted[k] == all[k].0);
            }
        },
        _ => {},
    }
    idx
}

/// The plugins are refreshed for a batch exactly where there is a hook for it and
/// an event that is not to be ignored is on a path that a plugin's loader
/// watches. Such an event is ticked all the same, whatever came of the refresh.
pub proof fn lemma_batch_goes_to_plugins(drain: Drain, batch: Vec<Intake>, refreshed: bool)
    ensures
        ({
            let next = drain.after(DrainAnswer::Received(Some(batch)));
            let touched = exists|i: int|
                0 <= i < batch@.len() && !(#[trigger] batch@[i]).suppressed
                    && batch@[i].plugin_watch_target;
            let any = exists|i: int|
                0 <= i < batch@.len() && !(#[trigger] batch@[i]).suppressed;
            &&& next.wait is Refresh <==> drain.refreshes && touched
            &&& next.wait is Tick <==> any && !(drain.refreshes && touched)
            &&& next.wait is Receive <==> !any
            &&& next.wait is Refresh ==> next.after(DrainAnswer::Refreshed(refreshed)).wait is Tick
            &&& next.refreshes == drain.refreshes
            &&& next.panics == drain.panics
            &&& next.stops_after == drain.stops_after
        }),
{
    let idx = kept_places(batch@);
    lemma_kept_places(batch@);
    let kept = unsuppressed(batch@);
    if touches_plugins(kept) {
        let k = choose|k: int| 0 <= k < kept.len() && (#[trigger] kept[k]).plugin_watch_target;
        assert(kept[k] == batch@[idx[k]]);
        assert(batch@[idx[k]].plugin_watch_target && !batch@[idx[k]].suppressed);
    }
    if exists|i: int|
        0 <= i < batch@.len() && !(#[trigger] batch@[i]).suppressed
            && batch@[i].plugin_watch_target {
        let i = choose|i: int|
            0 <= i < batch@.len() && !(#[trigger] batch@[i]).suppressed
                && batch@[i].plugin_watch_target;
        assert(idx.contains(i));
        let k = choose|k: int| 0 <= k < idx.len() && idx[k] == i;
        assert(kept[k] == batch@[i]);
    }
    if kept.len() > 0 {
        assert(!batch@[idx[0]].suppressed);
    }
    if exists|i: int| 0 <= i < batch@.len() && !(#[trigger] batch@[i]).suppressed {
        let i = choose|i: int| 0 <= i < batch@.len() && !(#[trigger] batch@[i]).suppressed;
        assert(idx.contains(i));
    }
}

/// What the loop does next is one thing for each place that it can stand at: it
/// renders at boot, then watches, reads the knobs and waits; and it reports
/// nothing but what a render did.
pub proof fn lemma_loop_goes_round(drain: Drain, action: DrainAction)
    requires
        drain_acts(drain, action),
    ensures
        action is Boot <==> drain.wait is Boot,
        action is Report <==> drain.wait is ReportBoot || drain.wait is Report,
        action is Register <==> drain.wait is RegisterBoot || drain.wait is Register,
        action is ReadKnobs <==> drain.wait is Knobs,
        action is Receive <==> drain.wait is Receive,
        action matches DrainAction::Receive { stops_after } ==> stops_after == drain.stops_after,
        action is Stop <==> drain.wait is Stopped,
        action is Panic <==> drain.wait is Panicked,
        action is Fail <==> drain.wait is Lost,
        drain.after(DrainAnswer::Received(None)).wait is Stopped,
        drain.after(DrainAnswer::TickPanicked).wait is Panicked,
        drain.after(DrainAnswer::TickLost).wait is Lost,
{
}

/// Every character of the text is white space.
pub open spec fn blank(s: Seq<char>) -> bool {
    forall|i: int| 0 <= i < s.len() ==> white_space(#[trigger] s[i])
}

/// The text has no white space at either end.
pub open spec fn trim(s: Seq<char>) -> bool {
    s.len() > 0 ==> !white_space(s[0]) && !white_space(s.last())
}

/// White space is what Unicode calls so.
pub proof fn lemma_white_space(c: char)
    ensures
        white_space(c) <==> {
            let n = c as int;
            ||| 9 <= n <= 13
            ||| n == 32
            ||| n == 133
            ||| n == 160
            ||| n == 5760
            ||| 8192 <= n <= 8202
            ||| n == 8232
            ||| n == 8233
            ||| n == 8239
            ||| n == 8287
            ||| n == 12288
        },
{
}

proof fn lemma_trim_start(front: Seq<char>, s: Seq<char>)
    requires
        blank(front),
        s.len() > 0 ==> !white_space(s[0]),
    ensures
        trim_start(front + s) == s,
    decreases front.len(),
{
    if front.len() == 0 {
        assert(front + s =~= s);
    } else {
        assert((front + s)[0] == front[0]);
        assert((front + s).drop_first() =~= front.drop_first() + s);
        assert(blank(front.drop_first())) by {
            assert forall|i: int| 0 <= i < front.drop_first().len() implies white_space(
                #[trigger] front.drop_first()[i],
            ) by {
                assert(white_space(front[i + 1]));
            }
        }
        lemma_trim_start(front.drop_first(), s);
    }
}

proof fn lemma_trim_end(s: Seq<char>, back: Seq<char>)
    requires
        blank(back),
        s.len() > 0 ==> !white_space(s.last()),
    ensures
        trim_end(s + back) == s,
    decreases back.len(),
{
    if back.len() == 0 {
        assert(s + back =~= s);
    } else {
        assert((s + back).last() == back.last());
        assert(white_space(back[back.len() - 1]));
        assert((s + back).drop_last() =~= s + back.drop_last());
        assert(blank(back.drop_last())) by {
            assert forall|i: int| 0 <= i < back.drop_last().len() implies white_space(
                #[trigger] back.drop_last()[i],
            ) by {
                assert(white_space(back[i]));
            }
        }
        lemma_trim_end(s, back.drop_last());
    }
}

/// Trimming takes away the white space at both ends, all of it and nothing else.
pub proof fn lemma_trimming(front: Seq<char>, s: Seq<char>, back: Seq<char>)
    requires
        blank(front),
        blank(back),
        trim(s),
    ensures
        trimmed(front + s + back) == s,
{
    assert(front + s + back =~= front + (s + back));
    if s.len() > 0 {
        assert((s + back)[0] == s[0]);
        lemma_trim_start(front, s + back);
        lemma_trim_end(s, back);
    } else {
        assert(s + back =~= back);
        assert(blank(front + back)) by {
            assert forall|i: int| 0 <= i < (front + back).len() implies white_space(
                #[trigger] (front + back)[i],
            ) by {
                if i < front.len() {
                    assert(white_space(front[i]));
                } else {
                    assert(white_space(back[i - front.len()]));
                }
            }
        }
        lemma_trim_start(front + back, Seq::empty());
        assert(front + back + Seq::<char>::empty() =~= front + (s + back));
        assert(s =~= Seq::empty());
    }
}

/// The panic knob is armed by every value but nothing, `0` and `false`, whatever
/// white space stands around it and whatever the case of the letters.
pub proof fn lemma_panic_knob(front: Seq<char>, s: Seq<char>, back: Seq<char>)
    requires
        blank(front),
        blank(back),
        trim(s),
    ensures
        armed_by(front + s + back) <==> !(s.len() == 0 || s.len() == 1 && s[0] == '0' || s.len() == 5
            && (s[0] == 'f' || s[0] == 'F') && (s[1] == 'a' || s[1] == 'A') && (s[2] == 'l' || s[2]
            == 'L') && (s[3] == 's' || s[3] == 'S') && (s[4] == 'e' || s[4] == 'E')),
{
    lemma_trimming(front, s, back);
    reveal_strlit("0");
    reveal_strlit("false");
    let zero = "0"@;
    let no = "false"@;
    assert(zero.len() == 1 && zero[0] == '0');
    assert(no.len() == 5 && no[0] == 'f' && no[1] == 'a' && no[2] == 'l' && no[3] == 's' && no[4]
        == 'e');
    if s.len() == 1 {
        assert(same_ignoring_ascii_case(s, zero) <==> ascii_lower(s[0]) == ascii_lower(zero[0]));
    }
    if s.len() == 5 {
        if same_ignoring_ascii_case(s, no) {
            assert(ascii_lower(s[0]) == ascii_lower(no[0]));
            assert(ascii_lower(s[1]) == ascii_lower(no[1]));
            assert(ascii_lower(s[2]) == ascii_lower(no[2]));
            assert(ascii_lower(s[3]) == ascii_lower(no[3]));
            assert(ascii_lower(s[4]) == ascii_lower(no[4]));
        }
    }
}

/// The timing lines are turned on by `1` and by `true`, whatever white space
/// stands around it and whatever the case of the letters, and by nothing else.
pub proof fn lemma_timing_switch(front: Seq<char>, s: Seq<char>, back: Seq<char>)
    requires
        blank(front),
        blank(back),
        trim(s),
    ensures
        switched_on(front + s + back) <==> (s.len() == 1 && s[0] == '1' || s.len() == 4 && (s[0]
            == 't' || s[0] == 'T') && (s[1] == 'r' || s[1] == 'R') && (s[2] == 'u' || s[2] == 'U')
            && (s[3] == 'e' || s[3] == 'E')),
{
    lemma_trimming(front, s, back);
    reveal_strlit("1");
    reveal_strlit("true");
    let one = "1"@;
    let yes = "true"@;
    assert(one.len() == 1 && one[0] == '1');
    assert(yes.len() == 4 && yes[0] == 't' && yes[1] == 'r' && yes[2] == 'u' && yes[3] == 'e');
    if s.len() == 1 {
        assert(same_ignoring_ascii_case(s, one) <==> ascii_lower(s[0]) == ascii_lower(one[0]));
    }
    if s.len() == 4 {
        if same_ignoring_ascii_case(s, yes) {
            assert(ascii_lower(s[0]) == ascii_lower(yes[0]));
            assert(ascii_lower(s[1]) == ascii_lower(yes[1]));
            assert(ascii_lower(s[2]) == ascii_lower(yes[2]));
            assert(ascii_lower(s[3]) == ascii_lower(yes[3]));
        }
    }
}

/// A number is read digit by digit. What is no digit, or makes it too large,
/// leaves no number, and no further digit mends that; a leading `+` changes
/// nothing, and nothing at all is no number.
pub proof fn lemma_numbers_are_read(s: Seq<char>, c: char)
    requires
        s.len() > 0,
        s[0] != '+',
    ensures
        unsigned_value(Seq::empty()) is None,
        unsigned_value(seq!['+']) is None,
        c != '+' ==> unsigned_value(seq![c]) == if '0' <= c <= '9' {
            Some((c as int - '0' as int) as u64)
        } else {
            None
        },
        unsigned_value(s.push(c)) == match unsigned_value(s) {
            Some(v) => if '0' <= c <= '9' && 10 * v + (c as int - '0' as int) <= u64::MAX {
                Some((10 * v + (c as int - '0' as int)) as u64)
            } else {
                None
            },
            None => None,
        },
        unsigned_value(seq!['+'] + s) == unsigned_value(s),
{
    assert(seq!['+'].drop_first() =~= Seq::<char>::empty());
    assert((seq!['+'] + s).drop_first() =~= s);
    let longer = s.push(c);
    assert(longer.drop_last() =~= s);
    assert(longer[0] == s[0]);
    assert(longer[s.len() as int] == c);
    assert forall|i: int| 0 <= i < s.len() implies longer[i] == #[trigger] s[i] by {}
    let one = seq![c];
    assert(one.drop_last() =~= Seq::<char>::empty());
    reveal_with_fuel(crate::text::decimal_value, 2);
    assert(one[0] == c);
    let digits = forall|i: int| 0 <= i < s.len() ==> crate::text::digit(#[trigger] s[i]);
    let more = forall|i: int|
        0 <= i < longer.len() ==> crate::text::digit(#[trigger] longer[i]);
    assert(more <==> digits && crate::text::digit(c)) by {
        if more {
            assert(crate::text::digit(longer[s.len() as int]));
            assert forall|i: int| 0 <= i < s.len() implies crate::text::digit(#[trigger] s[i]) by {
                assert(crate::text::digit(longer[i]));
            }
        }
        if digits && crate::text::digit(c) {
            assert forall|i: int| 0 <= i < longer.len() implies crate::text::digit(
                #[trigger] longer[i],
            ) by {
                if i < s.len() {
                    assert(crate::text::digit(s[i]));
                }
            }
        }
    }
    assert(crate::text::decimal_value(longer) == 10 * crate::text::decimal_value(s) + (c as nat
        - '0' as nat) as nat);
}

/// The knobs are what their values say, and are off where there is none.
pub proof fn lemma_knobs_are_read(drain: Drain, panic_on_tick: Option<&str>, stop_ms: Option<&str>)
    ensures
        ({
            let next = drain.after(DrainAnswer::Knobs { panic_on_tick, stop_ms });
            &&& next.wait is Receive
            &&& next.panics <==> panic_on_tick is Some && armed_by((panic_on_tick->0)@)
            &&& stop_ms is None ==> next.stops_after is None
            &&& stop_ms matches Some(v) ==> next.stops_after == unsigned_value(trimmed(v@))
            &&& next.refreshes == drain.refreshes
        }),
{
}

} // verus!
