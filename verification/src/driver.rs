//! The driver.
//!
//! The driver turns matched log records into outbound events. On each
//! record it fires every compiled trigger of the record's character,
//! drains each produced action once, and keeps the unfinished ones — the
//! delayed and the counting — in its active list. On each tick it drains
//! the whole list and drops what has finished. The caller supplies the
//! clock and the configuration snapshot.

use vstd::prelude::*;

use crate::compiled::{CompiledTriggerV, cts_view};
use crate::events::{Event, EventV, LogEvent, LogEventV, count_display, count_triggered,
    events_view, lemma_counts_concat};
use crate::live::{ActionKindV, LiveAction, LiveActionV, emit_of, live_of_template, step_of,
    still_delayed};
use crate::rex::{re_caps, re_match, re_names};
use crate::snapshot::{Snapshot, char_pos};

verus! {

/// The views of a list of live actions, in order.
pub open spec fn las_view(v: Seq<LiveAction>) -> Seq<LiveActionV> {
    v.map_values(|a: LiveAction| a@)
}

/// No action in the list has finished.
pub open spec fn all_unfinished(v: Seq<LiveActionV>) -> bool {
    forall|i: int| 0 <= i < v.len() ==> !(#[trigger] v[i]).finished
}

/// The events one drain pass over a list of actions emits, in order.
pub open spec fn first_emits(acts: Seq<LiveActionV>, now: u64) -> Seq<EventV>
    decreases acts.len(),
{
    if acts.len() == 0 {
        Seq::empty()
    } else {
        (match emit_of(acts[0], now) {
            Option::Some(e) => seq![e],
            Option::None => Seq::empty(),
        }) + first_emits(acts.skip(1), now)
    }
}

/// The actions still alive after one drain pass, in order.
pub open spec fn retained(acts: Seq<LiveActionV>, now: u64) -> Seq<LiveActionV>
    decreases acts.len(),
{
    if acts.len() == 0 {
        Seq::empty()
    } else {
        let a2 = step_of(acts[0], now);
        (if a2.finished {
            Seq::empty()
        } else {
            seq![a2]
        }) + retained(acts.skip(1), now)
    }
}

/// The full ordered list of live actions one matching trigger produces.
pub open spec fn acts_of(ct: CompiledTriggerV, ev: LogEventV, now: u64) -> Seq<LiveActionV> {
    seq![
        LiveActionV {
            kind: ActionKindV::Triggered { character: ct.character, trigger: ct.trigger, log: ev },
            delay_until: Option::None,
            finished: false,
        },
    ] + Seq::new(
        ct.trigger.actions.len(),
        |i: int|
            live_of_template(
                ct.trigger.actions[i],
                re_caps(ct.trigger.search_text, ev.message),
                re_names(ct.trigger.search_text),
                now,
            ),
    )
}

/// The events firing one trigger on one record emits at once.
pub open spec fn fire_emits(ct: CompiledTriggerV, ev: LogEventV, now: u64) -> Seq<EventV> {
    if re_match(ct.trigger.search_text, ev.message) {
        first_emits(acts_of(ct, ev, now), now)
    } else {
        Seq::empty()
    }
}

/// The actions firing one trigger on one record leaves alive.
pub open spec fn fire_retained(ct: CompiledTriggerV, ev: LogEventV, now: u64) -> Seq<
    LiveActionV,
> {
    if re_match(ct.trigger.search_text, ev.message) {
        retained(acts_of(ct, ev, now), now)
    } else {
        Seq::empty()
    }
}

/// The events a whole trigger list emits for one record, in trigger order.
pub open spec fn dispatch_emits(cts: Seq<CompiledTriggerV>, ev: LogEventV, now: u64) -> Seq<
    EventV,
>
    decreases cts.len(),
{
    if cts.len() == 0 {
        Seq::empty()
    } else {
        fire_emits(cts[0], ev, now) + dispatch_emits(cts.skip(1), ev, now)
    }
}

/// The actions a whole trigger list leaves alive for one record, in
/// trigger order.
pub open spec fn dispatch_retained(cts: Seq<CompiledTriggerV>, ev: LogEventV, now: u64) -> Seq<
    LiveActionV,
>
    decreases cts.len(),
{
    if cts.len() == 0 {
        Seq::empty()
    } else {
        fire_retained(cts[0], ev, now) + dispatch_retained(cts.skip(1), ev, now)
    }
}

/// How many of the triggers match the record's message.
pub open spec fn count_matching(cts: Seq<CompiledTriggerV>, ev: LogEventV) -> int
    decreases cts.len(),
{
    if cts.len() == 0 {
        0
    } else {
        (if re_match(cts[0].trigger.search_text, ev.message) {
            1int
        } else {
            0int
        }) + count_matching(cts.skip(1), ev)
    }
}

/// How many of the actions are pending text messages.
pub open spec fn count_display_actions(acts: Seq<LiveActionV>) -> int
    decreases acts.len(),
{
    if acts.len() == 0 {
        0
    } else {
        (if acts[0].kind is DisplayText {
            1int
        } else {
            0int
        }) + count_display_actions(acts.skip(1))
    }
}

/// How many of the templates are text messages.
pub open spec fn count_display_templates(acts: Seq<crate::triggers::ActionV>) -> int
    decreases acts.len(),
{
    if acts.len() == 0 {
        0
    } else {
        (if acts[0] is DisplayText {
            1int
        } else {
            0int
        }) + count_display_templates(acts.skip(1))
    }
}

/// None of the actions is a trigger record.
pub open spec fn no_triggered_kind(acts: Seq<LiveActionV>) -> bool {
    forall|i: int| 0 <= i < acts.len() ==> !((#[trigger] acts[i]).kind is Triggered)
}

/// A drain pass over actions that hold no trigger record emits no trigger
/// record.
pub proof fn lemma_no_triggered_emits(acts: Seq<LiveActionV>, now: u64)
    requires
        no_triggered_kind(acts),
    ensures
        count_triggered(first_emits(acts, now)) == 0,
    decreases acts.len(),
{
    if acts.len() > 0 {
        let rest = acts.skip(1);
        assert forall|i: int| 0 <= i < rest.len() implies !((#[trigger] rest[i]).kind
            is Triggered) by {
            assert(rest[i] == acts[i + 1]);
        }
        lemma_no_triggered_emits(rest, now);
        match emit_of(acts[0], now) {
            Option::Some(e) => {
                assert(first_emits(acts, now) == seq![e] + first_emits(rest, now));
                lemma_counts_concat(seq![e], first_emits(rest, now));
                assert(!(acts[0].kind is Triggered));
                assert(!(e.kind is Triggered));
                assert(count_triggered(seq![e]) == 0) by {
                    assert(seq![e][0] == e);
                    assert(seq![e].skip(1) =~= Seq::<EventV>::empty());
                    assert(count_triggered(Seq::<EventV>::empty()) == 0);
                }
            },
            Option::None => {
                assert(first_emits(acts, now) == Seq::<EventV>::empty() + first_emits(rest, now));
                assert(Seq::<EventV>::empty() + first_emits(rest, now) =~= first_emits(rest, now));
            },
        }
    }
}

/// Law: firing one trigger on one record emits exactly one trigger-record
/// event when the trigger matches, and none when it does not.
pub proof fn lemma_fire_one_triggered(ct: CompiledTriggerV, ev: LogEventV, now: u64)
    ensures
        count_triggered(fire_emits(ct, ev, now)) == (if re_match(ct.trigger.search_text, ev.message) {
            1int
        } else {
            0int
        }),
{
    if re_match(ct.trigger.search_text, ev.message) {
        let acts = acts_of(ct, ev, now);
        let tail = acts.skip(1);
        assert(acts[0].delay_until is None);
        assert(!still_delayed(acts[0], now));
        let e = emit_of(acts[0], now).unwrap();
        assert(first_emits(acts, now) == seq![e] + first_emits(tail, now));
        assert(no_triggered_kind(tail)) by {
            assert forall|i: int| 0 <= i < tail.len() implies !((#[trigger] tail[i]).kind
                is Triggered) by {
                assert(tail[i] == acts[i + 1]);
                assert(acts[i + 1] == live_of_template(
                    ct.trigger.actions[i],
                    re_caps(ct.trigger.search_text, ev.message),
                    re_names(ct.trigger.search_text),
                    now,
                ));
            }
        }
        lemma_no_triggered_emits(tail, now);
        lemma_counts_concat(seq![e], first_emits(tail, now));
        assert(e.kind is Triggered);
        assert(count_triggered(seq![e]) == 1) by {
            assert(seq![e][0] == e);
            assert(seq![e].skip(1) =~= Seq::<EventV>::empty());
            assert(count_triggered(Seq::<EventV>::empty()) == 0);
        }
    }
}

/// Law: dispatching one record over a trigger list emits exactly one
/// trigger-record event per matching trigger.
pub proof fn lemma_one_triggered_per_match(cts: Seq<CompiledTriggerV>, ev: LogEventV, now: u64)
    ensures
        count_triggered(dispatch_emits(cts, ev, now)) == count_matching(cts, ev),
    decreases cts.len(),
{
    if cts.len() > 0 {
        lemma_one_triggered_per_match(cts.skip(1), ev, now);
        lemma_fire_one_triggered(cts[0], ev, now);
        lemma_counts_concat(fire_emits(cts[0], ev, now), dispatch_emits(cts.skip(1), ev, now));
    }
}

/// Law: firing one matching trigger creates exactly one pending text
/// message per text template of the trigger.
pub proof fn lemma_fire_display_actions(ct: CompiledTriggerV, ev: LogEventV, now: u64)
    ensures
        count_display_actions(acts_of(ct, ev, now)) == count_display_templates(
            ct.trigger.actions,
        ),
{
    let acts = acts_of(ct, ev, now);
    let tail = acts.skip(1);
    assert(count_display_actions(acts) == count_display_actions(tail));
    lemma_display_actions_pointwise(tail, ct.trigger.actions, ev, now, ct);
}

proof fn lemma_display_actions_pointwise(
    a: Seq<LiveActionV>,
    t: Seq<crate::triggers::ActionV>,
    ev: LogEventV,
    now: u64,
    ct: CompiledTriggerV,
)
    requires
        a.len() == t.len(),
        forall|i: int|
            0 <= i < t.len() ==> ((#[trigger] a[i]).kind is DisplayText <==> t[i] is DisplayText),
    ensures
        count_display_actions(a) == count_display_templates(t),
    decreases a.len(),
{
    if a.len() > 0 {
        let a2 = a.skip(1);
        let t2 = t.skip(1);
        assert forall|i: int| 0 <= i < t2.len() implies ((#[trigger] a2[i]).kind is DisplayText
            <==> t2[i] is DisplayText) by {
            assert(a2[i] == a[i + 1]);
            assert(t2[i] == t[i + 1]);
        }
        lemma_display_actions_pointwise(a2, t2, ev, now, ct);
    }
}

/// Law: one drain pass neither loses nor duplicates a pending text
/// message: the messages emitted now and those still pending add up to
/// those that were pending.
pub proof fn lemma_display_conservation(acts: Seq<LiveActionV>, now: u64)
    requires
        all_unfinished(acts),
    ensures
        count_display(first_emits(acts, now)) + count_display_actions(retained(acts, now))
            == count_display_actions(acts),
    decreases acts.len(),
{
    if acts.len() > 0 {
        let rest = acts.skip(1);
        assert forall|i: int| 0 <= i < rest.len() implies !(#[trigger] rest[i]).finished by {
            assert(rest[i] == acts[i + 1]);
        }
        lemma_display_conservation(rest, now);
        let a0 = acts[0];
        let a2 = step_of(a0, now);
        assert(a2.kind == a0.kind);
        if still_delayed(a0, now) {
            assert(emit_of(a0, now) is None);
            assert(a2 == a0);
            assert(!a2.finished);
            assert(Seq::<EventV>::empty() + first_emits(rest, now) =~= first_emits(rest, now));
            assert(retained(acts, now) == seq![a2] + retained(rest, now));
            lemma_display_actions_concat(seq![a2], retained(rest, now));
            assert(count_display_actions(seq![a2]) == (if a2.kind is DisplayText {
                1int
            } else {
                0int
            })) by {
                assert(seq![a2][0] == a2);
                assert(seq![a2].skip(1) =~= Seq::<LiveActionV>::empty());
                assert(count_display_actions(Seq::<LiveActionV>::empty()) == 0);
            }
        } else {
            let e = emit_of(a0, now).unwrap();
            assert(first_emits(acts, now) == seq![e] + first_emits(rest, now));
            lemma_counts_concat(seq![e], first_emits(rest, now));
            assert(count_display(seq![e]) == (if e.kind is DisplayText {
                1int
            } else {
                0int
            })) by {
                assert(seq![e][0] == e);
                assert(seq![e].skip(1) =~= Seq::<EventV>::empty());
                assert(count_display(Seq::<EventV>::empty()) == 0);
            }
            assert((e.kind is DisplayText) <==> (a0.kind is DisplayText));
            if a2.finished {
                assert(Seq::<LiveActionV>::empty() + retained(rest, now) =~= retained(rest, now));
                assert(a0.kind is DisplayText ==> e.kind is DisplayText);
            } else {
                assert(a0.kind is Countdown);
                assert(retained(acts, now) == seq![a2] + retained(rest, now));
                lemma_display_actions_concat(seq![a2], retained(rest, now));
                assert(count_display_actions(seq![a2]) == 0) by {
                    assert(seq![a2][0] == a2);
                    assert(seq![a2].skip(1) =~= Seq::<LiveActionV>::empty());
                    assert(count_display_actions(Seq::<LiveActionV>::empty()) == 0);
                }
            }
        }
    }
}

proof fn lemma_display_actions_concat(a: Seq<LiveActionV>, b: Seq<LiveActionV>)
    ensures
        count_display_actions(a + b) == count_display_actions(a) + count_display_actions(b),
    decreases a.len(),
{
    if a.len() == 0 {
        assert(a + b =~= b);
    } else {
        assert((a + b)[0] == a[0]);
        assert((a + b).skip(1) =~= a.skip(1) + b);
        lemma_display_actions_concat(a.skip(1), b);
    }
}

/// How many text-message templates stand on the triggers that match the
/// record.
pub open spec fn matched_display_templates(cts: Seq<CompiledTriggerV>, ev: LogEventV) -> int
    decreases cts.len(),
{
    if cts.len() == 0 {
        0
    } else {
        (if re_match(cts[0].trigger.search_text, ev.message) {
            count_display_templates(cts[0].trigger.actions)
        } else {
            0int
        }) + matched_display_templates(cts.skip(1), ev)
    }
}

/// Law: dispatching one record accounts for every text message exactly
/// once: the messages shown at once and the ones left pending add up to
/// the message templates of the matching triggers.
pub proof fn lemma_display_accounted(cts: Seq<CompiledTriggerV>, ev: LogEventV, now: u64)
    ensures
        count_display(dispatch_emits(cts, ev, now)) + count_display_actions(
            dispatch_retained(cts, ev, now),
        ) == matched_display_templates(cts, ev),
    decreases cts.len(),
{
    if cts.len() > 0 {
        lemma_display_accounted(cts.skip(1), ev, now);
        lemma_counts_concat(fire_emits(cts[0], ev, now), dispatch_emits(cts.skip(1), ev, now));
        lemma_display_actions_concat(
            fire_retained(cts[0], ev, now),
            dispatch_retained(cts.skip(1), ev, now),
        );
        if re_match(cts[0].trigger.search_text, ev.message) {
            let acts = acts_of(cts[0], ev, now);
            assert(all_unfinished(acts)) by {
                assert forall|j: int| 0 <= j < acts.len() implies !(#[trigger] acts[j]).finished
                    by {
                    if j > 0 {
                        assert(acts[j] == live_of_template(
                            cts[0].trigger.actions[j - 1],
                            re_caps(cts[0].trigger.search_text, ev.message),
                            re_names(cts[0].trigger.search_text),
                            now,
                        ));
                    }
                }
            }
            lemma_display_conservation(acts, now);
            lemma_fire_display_actions(cts[0], ev, now);
        }
    }
}

/// The driver's state: the actions still in flight, and whether it is
/// running at all.
#[derive(Debug)]
pub struct DriverState {
    pub actions: Vec<LiveAction>,
    pub running: bool,
}

impl DriverState {
    /// Nothing in flight has already finished; finished actions are
    /// dropped the moment they finish.
    pub open spec fn wf(self) -> bool {
        all_unfinished(las_view(self.actions@))
    }

    pub fn new() -> (r: DriverState)
        ensures
            r.wf(),
            r.actions@.len() == 0,
            r.running,
    {
        DriverState { actions: Vec::new(), running: true }
    }

    /// Stops the driver and discards everything in flight.
    pub fn stop(&mut self)
        ensures
            final(self).wf(),
            !final(self).running,
            final(self).actions@.len() == 0,
    {
        self.running = false;
        self.actions = Vec::new();
    }

    /// Drains each action of `acts` once at time `now`, appending the
    /// emitted events to `out` and the survivors to `keep`.
    fn drain_into(acts: Vec<LiveAction>, now: u64, out: &mut Vec<Event>, keep: &mut Vec<
        LiveAction,
    >)
        requires
            all_unfinished(las_view(acts@)),
            all_unfinished(las_view(old(keep)@)),
        ensures
            events_view(final(out)@) == events_view(old(out)@) + first_emits(
                las_view(acts@),
                now,
            ),
            las_view(final(keep)@) == las_view(old(keep)@) + retained(las_view(acts@), now),
            all_unfinished(las_view(final(keep)@)),
    {
        let ghost orig = las_view(acts@);
        let mut acts = acts;
        proof {
            assert(las_view(acts@) =~= orig);
        }
        while acts.len() > 0
            invariant
                all_unfinished(las_view(acts@)),
                all_unfinished(las_view(keep@)),
                events_view(out@) + first_emits(las_view(acts@), now) == events_view(old(out)@)
                    + first_emits(orig, now),
                las_view(keep@) + retained(las_view(acts@), now) == las_view(old(keep)@)
                    + retained(orig, now),
            decreases acts@.len(),
        {
            let ghost cur = las_view(acts@);
            let ghost out_pre = events_view(out@);
            let ghost keep_pre = las_view(keep@);
            let mut a = acts.remove(0);
            proof {
                assert(cur[0] == a@);
                assert(las_view(acts@) =~= cur.skip(1));
            }
            let r = a.events(now);
            match r {
                Some(e) => {
                    let ghost ev = e@;
                    out.push(e);
                    proof {
                        assert(events_view(out@) =~= out_pre + seq![ev]);
                        assert(first_emits(cur, now) == seq![ev] + first_emits(cur.skip(1), now));
                        assert(out_pre + (seq![ev] + first_emits(cur.skip(1), now)) =~= (out_pre
                            + seq![ev]) + first_emits(cur.skip(1), now));
                    }
                },
                None => {
                    proof {
                        assert(first_emits(cur, now) == first_emits(cur.skip(1), now));
                        assert(out_pre + first_emits(cur.skip(1), now) == events_view(out@)
                            + first_emits(cur.skip(1), now));
                    }
                },
            }
            if !a.finished() {
                let ghost a2 = a@;
                keep.push(a);
                proof {
                    assert(las_view(keep@) =~= keep_pre + seq![a2]);
                    assert(retained(cur, now) == seq![a2] + retained(cur.skip(1), now));
                    assert(keep_pre + (seq![a2] + retained(cur.skip(1), now)) =~= (keep_pre + seq![
                        a2,
                    ]) + retained(cur.skip(1), now));
                }
            } else {
                proof {
                    assert(retained(cur, now) == retained(cur.skip(1), now));
                }
            }
        }
        proof {
            assert(las_view(acts@) =~= Seq::<LiveActionV>::empty());
            assert(first_emits(las_view(acts@), now) == Seq::<EventV>::empty());
            assert(retained(las_view(acts@), now) == Seq::<LiveActionV>::empty());
            assert(events_view(out@) + Seq::<EventV>::empty() =~= events_view(out@));
            assert(las_view(keep@) + Seq::<LiveActionV>::empty() =~= las_view(keep@));
        }
    }

    /// Handles one matched record at time `now`: looks its character up in
    /// the snapshot — a record of a character no longer configured is
    /// dropped — fires every compiled trigger of that character, emits
    /// each produced action once, and keeps the unfinished ones.
    pub fn on_log_event(&mut self, snap: &Snapshot, event: &LogEvent, now: u64) -> (evs: Vec<
        Event,
    >)
        requires
            old(self).wf(),
            snap.wf(),
        ensures
            final(self).running == old(self).running,
            final(self).wf(),
            char_pos(snap.characters@, event@.id) >= snap.characters@.len() ==> events_view(evs@)
                == Seq::<EventV>::empty() && final(self).actions@ == old(self).actions@,
            char_pos(snap.characters@, event@.id) < snap.characters@.len() ==> ({
                let cts = cts_view(
                    snap.sets@[char_pos(snap.characters@, event@.id) as int].triggers@,
                );
                &&& events_view(evs@) == dispatch_emits(cts, event@, now)
                &&& las_view(final(self).actions@) == las_view(old(self).actions@)
                    + dispatch_retained(cts, event@, now)
            }),
    {
        let mut evs: Vec<Event> = Vec::new();
        let ci = match self.find_index(snap, event) {
            Some(i) => i,
            None => {
                return evs;
            },
        };
        let ghost cts = cts_view(snap.sets@[ci as int].triggers@);
        let set = &snap.sets[ci];
        let nt = set.triggers.len();
        proof {
            assert(cts.skip(0) =~= cts);
            assert(events_view(evs@) =~= Seq::<EventV>::empty());
        }
        for ti in 0..nt
            invariant
                snap.wf(),
                ci < snap.sets@.len(),
                nt == snap.sets@[ci as int].triggers@.len(),
                cts == cts_view(snap.sets@[ci as int].triggers@),
                self.running == old(self).running,
                all_unfinished(las_view(self.actions@)),
                dispatch_emits(cts, event@, now) == events_view(evs@) + dispatch_emits(
                    cts.skip(ti as int),
                    event@,
                    now,
                ),
                las_view(old(self).actions@) + dispatch_retained(cts, event@, now) == las_view(
                    self.actions@,
                ) + dispatch_retained(cts.skip(ti as int), event@, now),
        {
            proof {
                assert(cts.skip(ti as int)[0] == cts[ti as int]);
                assert(cts.skip(ti as int).skip(1) =~= cts.skip(ti as int + 1));
                assert(cts[ti as int] == snap.sets@[ci as int].triggers@[ti as int]@);
                assert(snap.sets@[ci as int].wf());
            }
            let set = &snap.sets[ci];
            let tr = &set.triggers[ti];
            let ghost evs_pre = events_view(evs@);
            let ghost kept_pre = las_view(self.actions@);
            match tr.execute(event, now) {
                Some(acts) => {
                    proof {
                        assert(las_view(acts@) =~= acts_of(cts[ti as int], event@, now)) by {
                            assert forall|j: int| 0 <= j < las_view(acts@).len() implies las_view(
                                acts@,
                            )[j] == acts_of(cts[ti as int], event@, now)[j] by {
                                if j > 0 {
                                    assert(acts@[(j - 1) + 1]@ == live_of_template(
                                        tr@.trigger.actions[j - 1],
                                        re_caps(tr@.trigger.search_text, event@.message),
                                        re_names(tr@.trigger.search_text),
                                        now,
                                    ));
                                }
                            }
                        }
                        assert(all_unfinished(las_view(acts@))) by {
                            assert forall|j: int| 0 <= j < las_view(acts@).len() implies !(
                            #[trigger] las_view(acts@)[j]).finished by {
                                assert(las_view(acts@)[j] == acts_of(cts[ti as int], event@, now)[
                                    j
                                ]);
                            }
                        }
                    }
                    Self::drain_into(acts, now, &mut evs, &mut self.actions);
                    proof {
                        assert(fire_emits(cts[ti as int], event@, now) == first_emits(
                            acts_of(cts[ti as int], event@, now),
                            now,
                        ));
                        assert(dispatch_emits(cts.skip(ti as int), event@, now) == fire_emits(
                            cts[ti as int],
                            event@,
                            now,
                        ) + dispatch_emits(cts.skip(ti as int + 1), event@, now));
                        assert(evs_pre + (fire_emits(cts[ti as int], event@, now) + dispatch_emits(
                            cts.skip(ti as int + 1),
                            event@,
                            now,
                        )) =~= (evs_pre + fire_emits(cts[ti as int], event@, now))
                            + dispatch_emits(cts.skip(ti as int + 1), event@, now));
                        assert(kept_pre + (fire_retained(cts[ti as int], event@, now)
                            + dispatch_retained(cts.skip(ti as int + 1), event@, now)) =~= (
                        kept_pre + fire_retained(cts[ti as int], event@, now)) + dispatch_retained(
                            cts.skip(ti as int + 1),
                            event@,
                            now,
                        ));
                    }
                },
                None => {
                    proof {
                        assert(fire_emits(cts[ti as int], event@, now) == Seq::<EventV>::empty());
                        assert(fire_retained(cts[ti as int], event@, now) == Seq::<
                            LiveActionV,
                        >::empty());
                        assert(dispatch_emits(cts.skip(ti as int), event@, now) =~= dispatch_emits(
                            cts.skip(ti as int + 1),
                            event@,
                            now,
                        ));
                        assert(dispatch_retained(cts.skip(ti as int), event@, now)
                            =~= dispatch_retained(cts.skip(ti as int + 1), event@, now));
                    }
                },
            }
        }
        proof {
            assert(cts.skip(nt as int) =~= Seq::<CompiledTriggerV>::empty());
            assert(dispatch_emits(cts.skip(nt as int), event@, now) == Seq::<EventV>::empty());
            assert(dispatch_retained(cts.skip(nt as int), event@, now) == Seq::<
                LiveActionV,
            >::empty());
            assert(events_view(evs@) + Seq::<EventV>::empty() =~= events_view(evs@));
            assert(las_view(self.actions@) + Seq::<LiveActionV>::empty() =~= las_view(
                self.actions@,
            ));
        }
        evs
    }

    /// Where the record's character stands in the snapshot, if it is
    /// still configured.
    fn find_index(&self, snap: &Snapshot, event: &LogEvent) -> (r: Option<usize>)
        requires
            snap.wf(),
        ensures
            r is Some <==> char_pos(snap.characters@, event@.id) < snap.characters@.len(),
            r is Some ==> r.unwrap() == char_pos(snap.characters@, event@.id) && r.unwrap()
                < snap.sets@.len(),
    {
        snap.find_character(event.id.as_str())
    }

    /// One tick at time `now`: drains every action in flight once and
    /// drops what has finished.
    pub fn on_tick(&mut self, now: u64) -> (evs: Vec<Event>)
        requires
            old(self).wf(),
        ensures
            final(self).running == old(self).running,
            final(self).wf(),
            events_view(evs@) == first_emits(las_view(old(self).actions@), now),
            las_view(final(self).actions@) == retained(las_view(old(self).actions@), now),
    {
        let mut taken: Vec<LiveAction> = Vec::new();
        core::mem::swap(&mut self.actions, &mut taken);
        let mut evs: Vec<Event> = Vec::new();
        proof {
            assert(las_view(self.actions@) =~= Seq::<LiveActionV>::empty());
            assert(events_view(evs@) =~= Seq::<EventV>::empty());
        }
        Self::drain_into(taken, now, &mut evs, &mut self.actions);
        proof {
            assert(Seq::<EventV>::empty() + first_emits(las_view(old(self).actions@), now)
                =~= first_emits(las_view(old(self).actions@), now));
            assert(Seq::<LiveActionV>::empty() + retained(las_view(old(self).actions@), now)
                =~= retained(las_view(old(self).actions@), now));
        }
        evs
    }
}

} // verus!
