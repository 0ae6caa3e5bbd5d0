//! Actions in flight.
//!
//! When a trigger fires, each of its action templates becomes a live
//! action, together with one synthetic record of the firing itself. The
//! driver then drains each action over time: a delayed action stays silent
//! until its delay has passed, a message or trigger record is emitted once,
//! and a countdown emits its remaining time on every pass until it runs
//! out. All times are milliseconds on the caller's clock.

use vstd::prelude::*;

use crate::config::{Character, CharacterV};
use crate::events::{Event, EventKind, EventKindV, EventV, LogEvent, LogEventV};
use crate::expand::{expand_spec, opt_views};
use crate::expand::expand_template;
use crate::triggers::{Action, ActionV, Trigger, TriggerV};

verus! {

/// Addition that stops at the top of the clock instead of wrapping.
pub open spec fn sat_add64(a: u64, b: u64) -> u64 {
    if a as int + b as int > u64::MAX as int {
        u64::MAX
    } else {
        (a as int + b as int) as u64
    }
}

/// Whole seconds as milliseconds, stopping at the top of the range.
pub open spec fn ms_of_secs(s: u64) -> u64 {
    if s as int * 1000 > u64::MAX as int {
        u64::MAX
    } else {
        (s as int * 1000) as u64
    }
}

pub(crate) fn sat_add_ms(a: u64, b: u64) -> (r: u64)
    ensures
        r == sat_add64(a, b),
{
    if a > u64::MAX - b {
        u64::MAX
    } else {
        a + b
    }
}

fn to_ms(s: u64) -> (r: u64)
    ensures
        r == ms_of_secs(s),
{
    if s > u64::MAX / 1000 {
        u64::MAX
    } else {
        s * 1000
    }
}

/// What a live action is doing.
#[derive(Debug)]
pub enum ActionKind {
    Triggered { character: Character, trigger: Trigger, log: LogEvent },
    DisplayText { text: String },
    Countdown { text: String, duration: u64, ends_at: u64 },
}

#[verifier::ext_equal]
pub enum ActionKindV {
    Triggered { character: CharacterV, trigger: TriggerV, log: LogEventV },
    DisplayText { text: Seq<char> },
    Countdown { text: Seq<char>, duration: u64, ends_at: u64 },
}

impl View for ActionKind {
    type V = ActionKindV;

    open spec fn view(&self) -> ActionKindV {
        match self {
            ActionKind::Triggered { character, trigger, log } => ActionKindV::Triggered {
                character: character@,
                trigger: trigger@,
                log: log@,
            },
            ActionKind::DisplayText { text } => ActionKindV::DisplayText { text: text@ },
            ActionKind::Countdown { text, duration, ends_at } => ActionKindV::Countdown {
                text: text@,
                duration: *duration,
                ends_at: *ends_at,
            },
        }
    }
}

/// Runtime state of one scheduled action.
#[derive(Debug)]
pub struct LiveAction {
    pub kind: ActionKind,
    pub delay_until: Option<u64>,
    pub finished: bool,
}

#[verifier::ext_equal]
pub struct LiveActionV {
    pub kind: ActionKindV,
    pub delay_until: Option<u64>,
    pub finished: bool,
}

impl View for LiveAction {
    type V = LiveActionV;

    open spec fn view(&self) -> LiveActionV {
        LiveActionV { kind: self.kind@, delay_until: self.delay_until, finished: self.finished }
    }
}

/// Whether an action still waits out its delay at time `now`.
pub open spec fn still_delayed(a: LiveActionV, now: u64) -> bool {
    a.delay_until is Some && now < a.delay_until.unwrap()
}

/// The event one drain pass emits at time `now`: nothing while the action
/// is delayed, else one event after its kind, a countdown reporting its
/// remaining time clamped at zero.
pub open spec fn emit_of(a: LiveActionV, now: u64) -> Option<EventV> {
    if still_delayed(a, now) {
        Option::None
    } else {
        match a.kind {
            ActionKindV::Triggered { character, trigger, log } => Option::Some(
                EventV { created: now, kind: EventKindV::Triggered { character, trigger, log } },
            ),
            ActionKindV::DisplayText { text } => Option::Some(
                EventV { created: now, kind: EventKindV::DisplayText(text) },
            ),
            ActionKindV::Countdown { text, duration, ends_at } => Option::Some(
                EventV {
                    created: now,
                    kind: EventKindV::Countdown {
                        text,
                        duration,
                        remaining: if now >= ends_at {
                            0
                        } else {
                            (ends_at - now) as u64
                        },
                    },
                },
            ),
        }
    }
}

/// The action's state after one drain pass at time `now`: a passed delay is
/// cleared, a message or trigger record finishes at once, a countdown
/// finishes when its time has run out.
pub open spec fn step_of(a: LiveActionV, now: u64) -> LiveActionV {
    if still_delayed(a, now) {
        a
    } else {
        LiveActionV {
            kind: a.kind,
            delay_until: Option::None,
            finished: match a.kind {
                ActionKindV::Triggered { .. } => true,
                ActionKindV::DisplayText { .. } => true,
                ActionKindV::Countdown { ends_at, .. } => now >= ends_at,
            },
        }
    }
}

/// The live action a template becomes when its trigger fires at time
/// `now`, with the capture groups and group names of the match.
pub open spec fn live_of_template(
    t: ActionV,
    caps: Seq<Option<Seq<char>>>,
    names: Seq<Option<Seq<char>>>,
    now: u64,
) -> LiveActionV {
    match t {
        ActionV::DisplayText { text, delay } => LiveActionV {
            kind: ActionKindV::DisplayText { text: expand_spec(text, caps, names) },
            delay_until: delay_until_of(delay, now),
            finished: false,
        },
        ActionV::Countdown { text, duration, delay } => LiveActionV {
            kind: ActionKindV::Countdown {
                text: expand_spec(text, caps, names),
                duration: ms_of_secs(duration),
                ends_at: sat_add64(
                    sat_add64(now, ms_of_secs(duration)),
                    match delay {
                        Option::Some(d) => ms_of_secs(d),
                        Option::None => 0,
                    },
                ),
            },
            delay_until: delay_until_of(delay, now),
            finished: false,
        },
    }
}

/// When a delayed action becomes audible: its delay from `now`, or nothing
/// for an undelayed action.
pub open spec fn delay_until_of(delay: Option<u64>, now: u64) -> Option<u64> {
    match delay {
        Option::Some(d) => Option::Some(sat_add64(now, ms_of_secs(d))),
        Option::None => Option::None,
    }
}

impl LiveAction {
    /// The synthetic action recording that a trigger fired: no delay,
    /// finished as soon as its record is emitted.
    pub fn triggered(character: Character, trigger: Trigger, log: LogEvent) -> (a: LiveAction)
        ensures
            a@ == (LiveActionV {
                kind: ActionKindV::Triggered { character: character@, trigger: trigger@, log: log@ },
                delay_until: Option::None,
                finished: false,
            }),
    {
        LiveAction {
            kind: ActionKind::Triggered { character, trigger, log },
            delay_until: None,
            finished: false,
        }
    }

    /// A live action made from one template of a fired trigger, its texts
    /// expanded over the capture groups of the match.
    pub fn from_template(
        action: &Action,
        caps: &Vec<Option<String>>,
        names: &Vec<Option<String>>,
        now: u64,
    ) -> (a: LiveAction)
        ensures
            a@ == live_of_template(action@, opt_views(caps@), opt_views(names@), now),
    {
        match action {
            Action::DisplayText { text, delay } => {
                let expanded = expand_template(text.as_str(), caps, names);
                let delay_until = match delay {
                    Some(d) => Some(sat_add_ms(now, to_ms(*d))),
                    None => None,
                };
                LiveAction {
                    kind: ActionKind::DisplayText { text: expanded },
                    delay_until,
                    finished: false,
                }
            },
            Action::Countdown { text, duration, delay } => {
                let expanded = expand_template(text.as_str(), caps, names);
                let delay_ms: u64 = match delay {
                    Some(d) => to_ms(*d),
                    None => 0,
                };
                let delay_until = match delay {
                    Some(d) => Some(sat_add_ms(now, to_ms(*d))),
                    None => None,
                };
                let dur_ms = to_ms(*duration);
                LiveAction {
                    kind: ActionKind::Countdown {
                        text: expanded,
                        duration: dur_ms,
                        ends_at: sat_add_ms(sat_add_ms(now, dur_ms), delay_ms),
                    },
                    delay_until,
                    finished: false,
                }
            },
        }
    }

    /// One drain pass at time `now`: clears a passed delay, emits the
    /// action's event, and marks the action finished once it has nothing
    /// more to say.
    pub fn events(&mut self, now: u64) -> (r: Option<Event>)
        requires
            !old(self).finished,
        ensures
            r is Some <==> emit_of(old(self)@, now) is Some,
            r is Some ==> r.unwrap()@ == emit_of(old(self)@, now).unwrap(),
            final(self)@ == step_of(old(self)@, now),
    {
        if let Some(d) = self.delay_until {
            if now >= d {
                self.delay_until = None;
            } else {
                return None;
            }
        }
        let ev = match &self.kind {
            ActionKind::Triggered { character, trigger, log } => Event::new(
                EventKind::Triggered {
                    character: character.clone(),
                    trigger: trigger.clone(),
                    log: log.clone(),
                },
                now,
            ),
            ActionKind::DisplayText { text } => Event::new(
                EventKind::DisplayText(text.clone()),
                now,
            ),
            ActionKind::Countdown { text, duration, ends_at } => Event::new(
                EventKind::Countdown {
                    text: text.clone(),
                    duration: *duration,
                    remaining: if now >= *ends_at {
                        0
                    } else {
                        *ends_at - now
                    },
                },
                now,
            ),
        };
        let fin = match &self.kind {
            ActionKind::Countdown { ends_at, .. } => now >= *ends_at,
            _ => true,
        };
        self.finished = fin;
        Some(ev)
    }

    /// Whether the action has emitted everything it ever will.
    pub fn finished(&self) -> (r: bool)
        ensures
            r == self@.finished,
    {
        self.finished
    }
}

/// The events one action emits over a whole run of drain passes at the
/// given times. The run ends when the action finishes.
pub open spec fn run_action(a: LiveActionV, nows: Seq<u64>) -> Seq<EventV>
    decreases nows.len(),
{
    if nows.len() == 0 || a.finished {
        Seq::empty()
    } else {
        (match emit_of(a, nows[0]) {
            Option::Some(e) => seq![e],
            Option::None => Seq::empty(),
        }) + run_action(step_of(a, nows[0]), nows.skip(1))
    }
}

/// Law: a pending text message is shown exactly once. Over any run whose
/// times reach the action's delay, exactly one DisplayText event comes
/// out, and no trigger record ever does.
pub proof fn lemma_display_emits_once(a: LiveActionV, nows: Seq<u64>)
    requires
        a.kind is DisplayText,
        !a.finished,
        match a.delay_until {
            Option::Some(d) => exists|k: int| 0 <= k < nows.len() && #[trigger] nows[k] >= d,
            Option::None => nows.len() > 0,
        },
    ensures
        crate::events::count_display(run_action(a, nows)) == 1,
        crate::events::count_triggered(run_action(a, nows)) == 0,
    decreases nows.len(),
{
    if still_delayed(a, nows[0]) {
        let d = a.delay_until.unwrap();
        assert(step_of(a, nows[0]) == a);
        let k = choose|k: int| 0 <= k < nows.len() && #[trigger] nows[k] >= d;
        assert(k > 0);
        assert(nows.skip(1)[k - 1] == nows[k]);
        lemma_display_emits_once(a, nows.skip(1));
        assert(Seq::<EventV>::empty() + run_action(a, nows.skip(1)) =~= run_action(
            a,
            nows.skip(1),
        ));
    } else {
        let e = emit_of(a, nows[0]).unwrap();
        let a2 = step_of(a, nows[0]);
        assert(e.kind is DisplayText);
        assert(a2.finished);
        assert(run_action(a2, nows.skip(1)) == Seq::<EventV>::empty());
        assert(run_action(a, nows) == seq![e] + Seq::<EventV>::empty());
        assert(seq![e] + Seq::<EventV>::empty() =~= seq![e]);
        assert(seq![e][0] == e);
        assert(seq![e].skip(1) =~= Seq::<EventV>::empty());
        assert(crate::events::count_display(Seq::<EventV>::empty()) == 0);
        assert(crate::events::count_triggered(Seq::<EventV>::empty()) == 0);
    }
}

/// The end time of a countdown action.
pub open spec fn cd_ends(a: LiveActionV) -> u64 {
    match a.kind {
        ActionKindV::Countdown { ends_at, .. } => ends_at,
        _ => 0,
    }
}

/// The reported duration of a countdown action.
pub open spec fn cd_dur(a: LiveActionV) -> u64 {
    match a.kind {
        ActionKindV::Countdown { duration, .. } => duration,
        _ => 0,
    }
}

/// The remaining time an event reports; zero for events that are not
/// countdown ticks.
pub open spec fn remaining_of(e: EventV) -> u64 {
    match e.kind {
        EventKindV::Countdown { remaining, .. } => remaining,
        _ => 0,
    }
}

/// Whether an event is a countdown tick of the given duration.
pub open spec fn is_countdown_with(e: EventV, dur: u64) -> bool {
    match e.kind {
        EventKindV::Countdown { duration, .. } => duration == dur,
        _ => false,
    }
}

/// Law: how a countdown ticks. Over a run at non-decreasing times, every
/// event is a countdown tick of the action's duration; no reported
/// remaining time exceeds the duration or the first tick's report;
/// reports never increase; and once the clock reaches the end time the
/// run closes with a report of zero and nothing follows it.
pub proof fn lemma_countdown_run(a: LiveActionV, nows: Seq<u64>)
    requires
        a.kind is Countdown,
        !a.finished,
        a.delay_until is Some ==> cd_ends(a) as int - cd_dur(a) as int
            <= a.delay_until.unwrap() as int,
        a.delay_until is Some ==> a.delay_until.unwrap() <= cd_ends(a),
        a.delay_until is None ==> forall|k: int|
            0 <= k < nows.len() ==> #[trigger] nows[k] as int >= cd_ends(a) as int - cd_dur(
                a,
            ) as int,
        forall|k: int, l: int| 0 <= k <= l < nows.len() ==> #[trigger] nows[k] <= #[trigger] nows[l],
    ensures
        forall|i: int|
            0 <= i < run_action(a, nows).len() ==> is_countdown_with(
                #[trigger] run_action(a, nows)[i],
                cd_dur(a),
            ) && remaining_of(run_action(a, nows)[i]) <= cd_dur(a),
        forall|i: int, j: int|
            0 <= i <= j < run_action(a, nows).len() ==> remaining_of(
                #[trigger] run_action(a, nows)[i],
            ) >= remaining_of(#[trigger] run_action(a, nows)[j]),
        forall|i: int|
            0 <= i < run_action(a, nows).len() && nows.len() > 0 ==> remaining_of(
                #[trigger] run_action(a, nows)[i],
            ) as int <= (if nows[0] as int >= cd_ends(a) as int {
                0int
            } else {
                cd_ends(a) as int - nows[0] as int
            }),
        (exists|k: int| 0 <= k < nows.len() && #[trigger] nows[k] >= cd_ends(a)) ==> run_action(
            a,
            nows,
        ).len() > 0 && remaining_of(run_action(a, nows)[run_action(a, nows).len() - 1]) == 0,
    decreases nows.len(),
{
    if nows.len() == 0 {
    } else {
        let e_at = cd_ends(a);
        let dur = cd_dur(a);
        let run = run_action(a, nows);
        let tail_times = nows.skip(1);
        assert forall|k: int, l: int| 0 <= k <= l < tail_times.len() implies #[trigger] tail_times[
            k
        ] <= #[trigger] tail_times[l] by {
            assert(tail_times[k] == nows[k + 1]);
            assert(tail_times[l] == nows[l + 1]);
        }
        if still_delayed(a, nows[0]) {
            let d = a.delay_until.unwrap();
            assert(step_of(a, nows[0]) == a);
            lemma_countdown_run(a, tail_times);
            let tail_run = run_action(a, tail_times);
            assert(run =~= Seq::<EventV>::empty() + tail_run);
            assert(run =~= tail_run);
            if exists|k: int| 0 <= k < nows.len() && #[trigger] nows[k] >= e_at {
                let k = choose|k: int| 0 <= k < nows.len() && #[trigger] nows[k] >= e_at;
                assert(k > 0) by {
                    if k == 0 {
                        assert(nows[0] >= e_at);
                        assert(nows[0] < d);
                        assert(d <= e_at);
                        assert(false);
                    }
                }
                assert(tail_times[k - 1] == nows[k]);
            }
            assert forall|i: int| 0 <= i < run.len() && nows.len() > 0 implies remaining_of(
                #[trigger] run[i],
            ) as int <= (if nows[0] as int >= e_at as int {
                0int
            } else {
                e_at as int - nows[0] as int
            }) by {
                if tail_times.len() > 0 {
                    assert(tail_times[0] == nows[1]);
                    assert(nows[0] <= nows[1]);
                    assert(remaining_of(run[i]) as int <= (if nows[1] as int >= e_at as int {
                        0int
                    } else {
                        e_at as int - nows[1] as int
                    }));
                }
            }
        } else {
            let e0 = emit_of(a, nows[0]).unwrap();
            let a2 = step_of(a, nows[0]);
            assert(a2.kind == a.kind);
            assert(is_countdown_with(e0, dur));
            let r0: int = if nows[0] as int >= e_at as int {
                0
            } else {
                e_at as int - nows[0] as int
            };
            assert(remaining_of(e0) as int == r0);
            assert(r0 <= dur as int) by {
                if (nows[0] as int) < (e_at as int) {
                    match a.delay_until {
                        Option::Some(d) => {
                            assert(nows[0] >= d);
                            assert(e_at as int - dur as int <= d as int);
                        },
                        Option::None => {
                            assert(nows[0] as int >= e_at as int - dur as int);
                        },
                    }
                }
            }
            if nows[0] >= e_at {
                assert(a2.finished);
                assert(run_action(a2, tail_times) == Seq::<EventV>::empty());
                assert(run =~= seq![e0]);
                assert(run[0] == e0);
                assert(remaining_of(e0) == 0);
            } else {
                assert(!a2.finished);
                assert(a2.delay_until is None);
                assert(cd_ends(a2) == e_at);
                assert(cd_dur(a2) == dur);
                assert forall|k: int|
                    0 <= k < tail_times.len() implies #[trigger] tail_times[k] as int
                    >= cd_ends(a2) as int - cd_dur(a2) as int by {
                    assert(tail_times[k] == nows[k + 1]);
                    assert(nows[0] <= nows[k + 1]);
                    match a.delay_until {
                        Option::Some(d) => {
                            assert(nows[0] >= d);
                            assert(e_at as int - dur as int <= d as int);
                        },
                        Option::None => {},
                    }
                }
                lemma_countdown_run(a2, tail_times);
                let tail_run = run_action(a2, tail_times);
                assert(run == seq![e0] + tail_run);
                assert(run.len() == 1 + tail_run.len());
                assert(run[0] == e0);
                assert forall|i: int| 1 <= i < run.len() implies #[trigger] run[i] == tail_run[i
                    - 1] by {}
                assert forall|i: int|
                    0 <= i < run.len() && nows.len() > 0 implies remaining_of(#[trigger] run[i]) as int
                    <= r0 by {
                    if i >= 1 {
                        if tail_times.len() > 0 {
                            assert(tail_times[0] == nows[1]);
                            assert(nows[0] <= nows[1]);
                            assert(remaining_of(tail_run[i - 1]) as int <= (if tail_times[0] as int
                                >= e_at as int {
                                0int
                            } else {
                                e_at as int - tail_times[0] as int
                            }));
                        }
                    }
                }
                if exists|k: int| 0 <= k < nows.len() && #[trigger] nows[k] >= e_at {
                    let k = choose|k: int| 0 <= k < nows.len() && #[trigger] nows[k] >= e_at;
                    assert(k > 0);
                    assert(tail_times[k - 1] == nows[k]);
                    assert(tail_run.len() > 0);
                    assert(run[run.len() - 1] == tail_run[tail_run.len() - 1]);
                }
            }
        }
    }
}

/// The gaps between successive drain times are at most `g` milliseconds.
pub open spec fn gaps_at_most(nows: Seq<u64>, g: int) -> bool {
    forall|k: int|
        0 <= k < nows.len() - 1 ==> #[trigger] nows[k + 1] as int - nows[k] as int <= g
}

/// Law: a countdown that is already due keeps ticking at least once per
/// gap: over times that reach its end, it emits enough events to cover
/// the time from the first drain to the end, one gap each.
pub proof fn lemma_countdown_density(a: LiveActionV, nows: Seq<u64>, g: int)
    requires
        a.kind is Countdown,
        !a.finished,
        g >= 1,
        nows.len() > 0,
        !still_delayed(a, nows[0]),
        forall|k: int, l: int| 0 <= k <= l < nows.len() ==> #[trigger] nows[k] <= #[trigger] nows[l],
        gaps_at_most(nows, g),
        exists|k: int| 0 <= k < nows.len() && #[trigger] nows[k] >= cd_ends(a),
    ensures
        run_action(a, nows).len() * g >= cd_ends(a) as int - nows[0] as int + g,
    decreases nows.len(),
{
    let e_at = cd_ends(a);
    let e0 = emit_of(a, nows[0]).unwrap();
    let a2 = step_of(a, nows[0]);
    let tail_times = nows.skip(1);
    let run = run_action(a, nows);
    assert(run == seq![e0] + run_action(a2, tail_times));
    if nows[0] >= e_at {
        assert(a2.finished);
        assert(run_action(a2, tail_times) == Seq::<EventV>::empty());
        assert(run =~= seq![e0]);
    } else {
        assert(!a2.finished);
        assert(a2.delay_until is None);
        assert(cd_ends(a2) == e_at);
        let k = choose|k: int| 0 <= k < nows.len() && #[trigger] nows[k] >= e_at;
        assert(k > 0);
        assert(tail_times[k - 1] == nows[k]);
        assert forall|x: int, l: int| 0 <= x <= l < tail_times.len() implies #[trigger] tail_times[
            x
        ] <= #[trigger] tail_times[l] by {
            assert(tail_times[x] == nows[x + 1]);
            assert(tail_times[l] == nows[l + 1]);
        }
        assert forall|x: int| 0 <= x < tail_times.len() - 1 implies #[trigger] tail_times[x
            + 1] as int - tail_times[x] as int <= g by {
            assert(tail_times[x + 1] == nows[x + 2]);
            assert(tail_times[x] == nows[x + 1]);
            assert(nows[(x + 1) + 1] as int - nows[x + 1] as int <= g);
        }
        assert(!still_delayed(a2, tail_times[0]));
        lemma_countdown_density(a2, tail_times, g);
        assert(tail_times[0] == nows[1]);
        assert(nows[0int + 1] as int - nows[0int] as int <= g);
        let tl = run_action(a2, tail_times).len() as int;
        assert(run.len() == 1 + tl);
        assert((1 + tl) * g == g + tl * g) by (nonlinear_arith);
    }
}

/// Law: a countdown of a fired trigger ticks often enough. While the
/// driver drains it no more than `g` milliseconds apart, starting no
/// later than the moment its delay passes and continuing until its end
/// time, the events it emits cover the countdown's span: their number
/// times `g` is at least the time from the end of the delay to the end
/// of the countdown.
pub proof fn lemma_countdown_tick_count(a: LiveActionV, nows: Seq<u64>, g: int)
    requires
        a.kind is Countdown,
        !a.finished,
        a.delay_until is Some,
        g >= 1,
        nows.len() > 0,
        nows[0] <= a.delay_until.unwrap(),
        a.delay_until.unwrap() <= cd_ends(a),
        forall|k: int, l: int| 0 <= k <= l < nows.len() ==> #[trigger] nows[k] <= #[trigger] nows[l],
        gaps_at_most(nows, g),
        exists|k: int| 0 <= k < nows.len() && #[trigger] nows[k] >= cd_ends(a),
    ensures
        run_action(a, nows).len() * g >= cd_ends(a) as int - a.delay_until.unwrap() as int,
    decreases nows.len(),
{
    let d = a.delay_until.unwrap();
    let e_at = cd_ends(a);
    if !still_delayed(a, nows[0]) {
        lemma_countdown_density(a, nows, g);
    } else {
        let tail_times = nows.skip(1);
        assert(step_of(a, nows[0]) == a);
        let run = run_action(a, nows);
        assert(run =~= Seq::<EventV>::empty() + run_action(a, tail_times));
        assert(run =~= run_action(a, tail_times));
        let k = choose|k: int| 0 <= k < nows.len() && #[trigger] nows[k] >= e_at;
        assert(k > 0) by {
            if k == 0 {
                assert(nows[0] >= e_at);
                assert(nows[0] < d);
                assert(d <= e_at);
                assert(false);
            }
        }
        assert(tail_times.len() > 0);
        assert(tail_times[k - 1] == nows[k]);
        assert forall|x: int, l: int| 0 <= x <= l < tail_times.len() implies #[trigger] tail_times[
            x
        ] <= #[trigger] tail_times[l] by {
            assert(tail_times[x] == nows[x + 1]);
            assert(tail_times[l] == nows[l + 1]);
        }
        assert forall|x: int| 0 <= x < tail_times.len() - 1 implies #[trigger] tail_times[x
            + 1] as int - tail_times[x] as int <= g by {
            assert(tail_times[x + 1] == nows[x + 2]);
            assert(tail_times[x] == nows[x + 1]);
            assert(nows[(x + 1) + 1] as int - nows[x + 1] as int <= g);
        }
        assert(tail_times[0] == nows[1]);
        assert(nows[0int + 1] as int - nows[0int] as int <= g);
        if tail_times[0] <= d {
            lemma_countdown_tick_count(a, tail_times, g);
        } else {
            assert(!still_delayed(a, tail_times[0]));
            lemma_countdown_density(a, tail_times, g);
            assert(tail_times[0] as int <= nows[0] as int + g);
            assert(nows[0] < d);
        }
    }
}

} // verus!
