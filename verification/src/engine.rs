//! The orchestrator.
//!
//! `Comrade` owns the whole engine: the raw configuration, the compiled
//! snapshot, one tailer per character, the driver and the outbound event
//! queue. The caller wires it to the world: it loads parsed configuration
//! data in, reports filesystem notifications, reads file bytes on request,
//! supplies the clock, and drains events.

use vstd::prelude::*;

use crate::bus::{EventBus, enqueue_lossy, lemma_enqueue_concat};
use crate::compiled::cts_view;
use crate::config::Character;
use crate::driver::{DriverState, dispatch_emits, dispatch_retained, las_view};
use crate::errors::{ComradeError, LogWatcherError, TriggerError};
use crate::events::{Event, EventV, LogEventV, events_view, logs_view};
use crate::expand::str_eq;
use crate::rex::{regex_set_clone, regex_set_new, set_builds, set_patterns};
use crate::snapshot::{Snapshot, all_valid, char_pos, chars_view, enabled_all, patterns_of,
    strs_view};
use crate::stamp::{Timestamp, local_now};
use crate::tailer::{Tailer, TailerV, complete_lines, events_of_lines, line_rest};
use crate::triggers::TriggerSet;
use crate::triggers::sets_view;
use crate::live::sat_add64;

verus! {

/// What a `load` call replaces: the characters, the trigger sets, or
/// both.
pub enum LoadOptions {
    All { characters: Vec<Character>, triggers: Vec<TriggerSet> },
    Config { characters: Vec<Character> },
    Triggers { triggers: Vec<TriggerSet> },
}

/// The characters a `load` call leaves in force.
pub open spec fn chars_of(opts: LoadOptions, prev: Seq<Character>) -> Seq<Character> {
    match opts {
        LoadOptions::All { characters, .. } => characters@,
        LoadOptions::Config { characters } => characters@,
        LoadOptions::Triggers { .. } => prev,
    }
}

/// The trigger sets a `load` call leaves in force.
pub open spec fn sets_of(opts: LoadOptions, prev: Seq<TriggerSet>) -> Seq<TriggerSet> {
    match opts {
        LoadOptions::All { triggers, .. } => triggers@,
        LoadOptions::Config { .. } => prev,
        LoadOptions::Triggers { triggers } => triggers@,
    }
}

/// Whether every pattern of every trigger the characters have enabled
/// compiles on its own.
pub open spec fn config_valid(cs: Seq<Character>, ss: Seq<TriggerSet>) -> bool {
    forall|ci: int|
        0 <= ci < cs.len() ==> all_valid(enabled_all((#[trigger] cs[ci])@, sets_view(ss)))
}

/// Whether every character's enabled patterns also build as one combined
/// prefilter set.
pub open spec fn filters_build(cs: Seq<Character>, ss: Seq<TriggerSet>) -> bool {
    forall|ci: int|
        0 <= ci < cs.len() ==> set_builds(
            patterns_of(enabled_all((#[trigger] cs[ci])@, sets_view(ss))),
        )
}

/// A filesystem notification, as the engine reads it.
#[derive(Clone, Copy, Debug, PartialEq, Eq, Structural)]
pub enum FileEventKind {
    Create,
    Modify,
    Remove,
    Access,
    Other,
}

/// Index of the first tailer following the given file; the list's length
/// when none does.
pub open spec fn tailer_pos(ts: Seq<Tailer>, filename: Seq<char>) -> nat
    decreases ts.len(),
{
    if ts.len() == 0 {
        0
    } else if ts[0]@.filename == filename {
        0
    } else {
        1 + tailer_pos(ts.skip(1), filename)
    }
}

pub proof fn lemma_tailer_pos(ts: Seq<Tailer>, filename: Seq<char>)
    ensures
        tailer_pos(ts, filename) <= ts.len(),
        tailer_pos(ts, filename) < ts.len() ==> ts[tailer_pos(ts, filename) as int]@.filename
            == filename,
        forall|i: int| 0 <= i < tailer_pos(ts, filename) ==> (#[trigger] ts[i])@.filename
            != filename,
    decreases ts.len(),
{
    if ts.len() > 0 && ts[0]@.filename != filename {
        let t = ts.skip(1);
        lemma_tailer_pos(t, filename);
        assert forall|i: int| 0 <= i < tailer_pos(ts, filename) implies (
        #[trigger] ts[i])@.filename != filename by {
            if i > 0 {
                assert(t[i - 1] == ts[i]);
            }
        }
    }
}

/// A tailer after a configuration load: if its character is still
/// configured it gets that character's new prefilter, otherwise it stays
/// as it was.
pub open spec fn refreshed(t: TailerV, snap: Snapshot) -> TailerV {
    let cp = char_pos(snap.characters@, t.id);
    if cp < snap.characters@.len() {
        TailerV { filter: Option::Some(strs_view(snap.sets@[cp as int].patterns@)), ..t }
    } else {
        t
    }
}

/// The events one matched record makes the driver emit: nothing when its
/// character is no longer configured.
pub open spec fn record_emits(snap: Snapshot, ev: LogEventV, now: u64) -> Seq<EventV> {
    let cp = char_pos(snap.characters@, ev.id);
    if cp < snap.characters@.len() {
        dispatch_emits(cts_view(snap.sets@[cp as int].triggers@), ev, now)
    } else {
        Seq::empty()
    }
}

/// The actions one matched record leaves in flight.
pub open spec fn record_retained(snap: Snapshot, ev: LogEventV, now: u64) -> Seq<
    crate::live::LiveActionV,
> {
    let cp = char_pos(snap.characters@, ev.id);
    if cp < snap.characters@.len() {
        dispatch_retained(cts_view(snap.sets@[cp as int].triggers@), ev, now)
    } else {
        Seq::empty()
    }
}

/// The events a list of records makes the driver emit, in order.
pub open spec fn records_emits(snap: Snapshot, levs: Seq<LogEventV>, now: u64) -> Seq<EventV>
    decreases levs.len(),
{
    if levs.len() == 0 {
        Seq::empty()
    } else {
        record_emits(snap, levs[0], now) + records_emits(snap, levs.skip(1), now)
    }
}

/// The actions a list of records leaves in flight, in order.
pub open spec fn records_retained(snap: Snapshot, levs: Seq<LogEventV>, now: u64) -> Seq<
    crate::live::LiveActionV,
>
    decreases levs.len(),
{
    if levs.len() == 0 {
        Seq::empty()
    } else {
        record_retained(snap, levs[0], now) + records_retained(snap, levs.skip(1), now)
    }
}

/// The engine.
pub struct Comrade {
    pub characters: Vec<Character>,
    pub trigger_sets: Vec<TriggerSet>,
    pub snapshot: Snapshot,
    pub tailers: Vec<Tailer>,
    pub driver: DriverState,
    pub bus: EventBus,
    pub started: bool,
}

impl Comrade {
    /// The engine's invariant: the snapshot and the driver are internally
    /// consistent.
    pub open spec fn wf(self) -> bool {
        &&& self.snapshot.wf()
        &&& self.driver.wf()
    }

    /// A fresh engine: empty configuration, an idle driver, an empty
    /// event queue, not yet watching anything.
    pub fn new() -> (r: Comrade)
        ensures
            r.wf(),
            r.characters@.len() == 0,
            r.trigger_sets@.len() == 0,
            r.snapshot.characters@.len() == 0,
            r.tailers@.len() == 0,
            r.driver.running,
            r.driver.actions@.len() == 0,
            r.bus.queue@.len() == 0,
            r.bus.capacity == 1000,
            !r.started,
    {
        Comrade {
            characters: Vec::new(),
            trigger_sets: Vec::new(),
            snapshot: Snapshot::empty(),
            tailers: Vec::new(),
            driver: DriverState::new(),
            bus: EventBus::new(1000),
            started: false,
        }
    }

    /// Begins delivering: from here on, notifications on watched files
    /// produce events. The caller registers the watched files with its
    /// notifier.
    pub fn start(&mut self) -> (r: Result<(), ComradeError>)
        requires
            old(self).wf(),
        ensures
            final(self).wf(),
            r is Ok,
            *final(self) == (Comrade { started: true, ..*old(self) }),
    {
        self.started = true;
        Ok(())
    }

    /// Stops delivering: no further events are produced, and everything
    /// still in flight is discarded. The caller unregisters its watches.
    pub fn stop(&mut self) -> (r: Result<(), ComradeError>)
        requires
            old(self).wf(),
        ensures
            final(self).wf(),
            r is Ok,
            !final(self).started,
            !final(self).driver.running,
            final(self).driver.actions@.len() == 0,
            final(self).characters == old(self).characters,
            final(self).trigger_sets == old(self).trigger_sets,
            final(self).snapshot == old(self).snapshot,
            final(self).tailers == old(self).tailers,
            final(self).bus == old(self).bus,
    {
        self.started = false;
        self.driver.stop();
        Ok(())
    }

    /// The oldest event not yet drained, if any.
    pub fn event(&mut self) -> (r: Option<Event>)
        requires
            old(self).wf(),
        ensures
            final(self).wf(),
            old(self).bus.queue@.len() == 0 ==> r is None
                && final(self).bus.queue@ == old(self).bus.queue@,
            old(self).bus.queue@.len() > 0 ==> r is Some && r.unwrap() == old(self).bus.queue@[0]
                && final(self).bus.queue@ == old(self).bus.queue@.skip(1),
            final(self).characters == old(self).characters,
            final(self).trigger_sets == old(self).trigger_sets,
            final(self).snapshot == old(self).snapshot,
            final(self).tailers == old(self).tailers,
            final(self).driver == old(self).driver,
            final(self).started == old(self).started,
            final(self).bus.capacity == old(self).bus.capacity,
    {
        self.bus.pop()
    }

    /// One combined prefilter per snapshot character, ready to push into
    /// the tailers. Succeeds exactly when every character's pattern list
    /// builds as a combined set.
    fn build_filters(snap: &Snapshot) -> (r: Result<Vec<regex::RegexSet>, TriggerError>)
        requires
            snap.wf(),
        ensures
            r is Ok <==> (forall|i: int|
                0 <= i < snap.sets@.len() ==> set_builds(
                    strs_view((#[trigger] snap.sets@[i]).patterns@),
                )),
            r is Ok ==> r.unwrap()@.len() == snap.sets@.len(),
            r is Ok ==> forall|i: int|
                0 <= i < snap.sets@.len() ==> set_patterns(#[trigger] r.unwrap()@[i]) == strs_view(
                    snap.sets@[i].patterns@,
                ),
            r is Err ==> (r matches Err(TriggerError::FilterBuild { .. })),
    {
        let mut out: Vec<regex::RegexSet> = Vec::new();
        let n = snap.sets.len();
        for i in 0..n
            invariant
                n == snap.sets@.len(),
                out@.len() == i,
                forall|k: int|
                    0 <= k < i ==> set_patterns(#[trigger] out@[k]) == strs_view(
                        snap.sets@[k].patterns@,
                    ),
                forall|k: int|
                    0 <= k < i ==> set_builds(strs_view((#[trigger] snap.sets@[k]).patterns@)),
        {
            match regex_set_new(&snap.sets[i].patterns) {
                Ok(rs) => {
                    proof {
                        assert(set_patterns(rs) =~= strs_view(snap.sets@[i as int].patterns@)) by {
                            assert forall|k: int|
                                0 <= k < snap.sets@[i as int].patterns@.len() implies set_patterns(
                                rs,
                            )[k] == strs_view(snap.sets@[i as int].patterns@)[k] by {
                                assert(set_patterns(rs)[k] == snap.sets@[i as int].patterns@[k]@);
                            }
                        }
                    }
                    out.push(rs);
                },
                Err(e) => {
                    return Err(
                        TriggerError::FilterBuild {
                            character_id: snap.sets[i].character_id.clone(),
                            error: e,
                        },
                    );
                },
            }
        }
        Ok(out)
    }

    /// Pushes each snapshot character's prefilter into the tailer that
    /// follows its file; a tailer whose character is gone keeps its old
    /// filter.
    fn refresh_tailers(&mut self, filters: &Vec<regex::RegexSet>)
        requires
            old(self).snapshot.wf(),
            filters@.len() == old(self).snapshot.sets@.len(),
            forall|i: int|
                0 <= i < filters@.len() ==> set_patterns(#[trigger] filters@[i]) == strs_view(
                    old(self).snapshot.sets@[i].patterns@,
                ),
        ensures
            final(self).characters == old(self).characters,
            final(self).trigger_sets == old(self).trigger_sets,
            final(self).snapshot == old(self).snapshot,
            final(self).driver == old(self).driver,
            final(self).bus == old(self).bus,
            final(self).started == old(self).started,
            final(self).tailers@.len() == old(self).tailers@.len(),
            forall|ti: int|
                0 <= ti < old(self).tailers@.len() ==> (#[trigger] final(self).tailers@[ti])@
                    == refreshed(old(self).tailers@[ti]@, old(self).snapshot),
    {
        let mut done: Vec<Tailer> = Vec::new();
        let ghost orig = old(self).tailers@;
        while self.tailers.len() > 0
            invariant
                self.characters == old(self).characters,
                self.trigger_sets == old(self).trigger_sets,
                self.snapshot == old(self).snapshot,
                self.driver == old(self).driver,
                self.bus == old(self).bus,
                self.started == old(self).started,
                self.snapshot.wf(),
                filters@.len() == self.snapshot.sets@.len(),
                forall|i: int|
                    0 <= i < filters@.len() ==> set_patterns(#[trigger] filters@[i]) == strs_view(
                        self.snapshot.sets@[i].patterns@,
                    ),
                done@.len() + self.tailers@.len() == orig.len(),
                forall|j: int|
                    0 <= j < self.tailers@.len() ==> #[trigger] self.tailers@[j] == orig[done@.len()
                        + j],
                forall|j: int|
                    0 <= j < done@.len() ==> (#[trigger] done@[j])@ == refreshed(
                        orig[j]@,
                        self.snapshot,
                    ),
            decreases self.tailers@.len(),
        {
            let ghost k = done@.len() as int;
            let mut t = self.tailers.remove(0);
            proof {
                assert(t == orig[k]);
                assert forall|j: int| 0 <= j < self.tailers@.len() implies #[trigger] self.tailers@[
                    j
                ] == orig[k + 1 + j] by {}
            }
            match self.snapshot.find_character(t.id.as_str()) {
                Some(ci) => {
                    let rs = regex_set_clone(&filters[ci]);
                    t.set_filter(rs);
                },
                None => {},
            }
            proof {
                assert(t@ == refreshed(orig[k]@, self.snapshot));
            }
            done.push(t);
        }
        self.tailers = done;
    }

    /// Replaces part or all of the configuration and compiles a new
    /// snapshot. On any failure the engine is left exactly as it was:
    /// the previous snapshot stays in force. On success the very next
    /// matched line sees the new triggers, and every tailer of a still
    /// configured character gets its new prefilter. Succeeds exactly when
    /// every enabled pattern compiles and every character's combined
    /// prefilter builds.
    pub fn load(&mut self, opts: LoadOptions) -> (r: Result<(), ComradeError>)
        requires
            old(self).wf(),
        ensures
            final(self).wf(),
            r is Ok <==> config_valid(
                chars_of(opts, old(self).characters@),
                sets_of(opts, old(self).trigger_sets@),
            ) && filters_build(
                chars_of(opts, old(self).characters@),
                sets_of(opts, old(self).trigger_sets@),
            ),
            r is Err ==> *final(self) == *old(self),
            r is Err ==> (r matches Err(ComradeError::TriggerError(_))),
            !config_valid(chars_of(opts, old(self).characters@), sets_of(opts, old(self).trigger_sets@))
                ==> (r matches Err(ComradeError::TriggerError(TriggerError::InvalidRegex { .. }))),
            config_valid(chars_of(opts, old(self).characters@), sets_of(opts, old(self).trigger_sets@))
                && !filters_build(
                chars_of(opts, old(self).characters@),
                sets_of(opts, old(self).trigger_sets@),
            ) ==> (r matches Err(ComradeError::TriggerError(TriggerError::FilterBuild { .. }))),
            r is Ok ==> ({
                &&& final(self).characters@ == chars_of(opts, old(self).characters@)
                &&& final(self).trigger_sets@ == sets_of(opts, old(self).trigger_sets@)
                &&& final(self).snapshot.wf()
                &&& final(self).snapshot.matches_config(
                    chars_view(chars_of(opts, old(self).characters@)),
                    sets_view(sets_of(opts, old(self).trigger_sets@)),
                )
                &&& final(self).tailers@.len() == old(self).tailers@.len()
                &&& forall|ti: int|
                    0 <= ti < old(self).tailers@.len() ==> (#[trigger] final(self).tailers@[ti])@
                        == refreshed(old(self).tailers@[ti]@, final(self).snapshot)
                &&& final(self).driver == old(self).driver
                &&& final(self).bus == old(self).bus
                &&& final(self).started == old(self).started
            }),
    {
        let ghost cs_seq = chars_of(opts, self.characters@);
        let ghost ss_seq = sets_of(opts, self.trigger_sets@);
        let (new_chars, new_sets): (Option<Vec<Character>>, Option<Vec<TriggerSet>>) = match opts {
            LoadOptions::All { characters, triggers } => (Some(characters), Some(triggers)),
            LoadOptions::Config { characters } => (Some(characters), None),
            LoadOptions::Triggers { triggers } => (None, Some(triggers)),
        };
        let snap = {
            let chars_ref: &Vec<Character> = match &new_chars {
                Some(cs) => cs,
                None => &self.characters,
            };
            let sets_ref: &Vec<TriggerSet> = match &new_sets {
                Some(ts) => ts,
                None => &self.trigger_sets,
            };
            match Snapshot::build(chars_ref, sets_ref) {
                Ok(s) => s,
                Err(e) => {
                    proof {
                        assert(!config_valid(cs_seq, ss_seq));
                    }
                    return Err(ComradeError::TriggerError(e));
                },
            }
        };
        let filters = match Self::build_filters(&snap) {
            Ok(f) => f,
            Err(e) => {
                proof {
                    assert(config_valid(cs_seq, ss_seq));
                    assert(!filters_build(cs_seq, ss_seq)) by {
                        assert(exists|i: int|
                            0 <= i < snap.sets@.len() && !set_builds(
                                strs_view((#[trigger] snap.sets@[i]).patterns@),
                            ));
                        let i = choose|i: int|
                            0 <= i < snap.sets@.len() && !set_builds(
                                strs_view((#[trigger] snap.sets@[i]).patterns@),
                            );
                        assert(snap.matches_config(chars_view(cs_seq), sets_view(ss_seq)));
                        assert(chars_view(cs_seq)[i] == cs_seq[i]@);
                        assert(snap.sets@[i].matches_plan(chars_view(cs_seq)[i], sets_view(ss_seq)));
                        assert(strs_view(snap.sets@[i].patterns@) == patterns_of(
                            enabled_all(cs_seq[i]@, sets_view(ss_seq)),
                        ));
                    }
                }
                return Err(ComradeError::TriggerError(e));
            },
        };
        proof {
            assert(config_valid(cs_seq, ss_seq));
            assert(filters_build(cs_seq, ss_seq)) by {
                assert forall|ci: int| 0 <= ci < cs_seq.len() implies set_builds(
                    patterns_of(enabled_all((#[trigger] cs_seq[ci])@, sets_view(ss_seq))),
                ) by {
                    assert(snap.matches_config(chars_view(cs_seq), sets_view(ss_seq)));
                    assert(chars_view(cs_seq)[ci] == cs_seq[ci]@);
                    assert(snap.sets@[ci].matches_plan(chars_view(cs_seq)[ci], sets_view(ss_seq)));
                    assert(strs_view(snap.sets@[ci].patterns@) == patterns_of(
                        enabled_all(cs_seq[ci]@, sets_view(ss_seq)),
                    ));
                    assert(set_builds(strs_view(snap.sets@[ci].patterns@)));
                }
            }
        }
        match new_chars {
            Some(cs) => {
                self.characters = cs;
            },
            None => {},
        }
        match new_sets {
            Some(ts) => {
                self.trigger_sets = ts;
            },
            None => {},
        }
        self.snapshot = snap;
        self.refresh_tailers(&filters);
        Ok(())
    }

    /// Creates one tailer per configured character, each starting at the
    /// end of its file — `file_sizes[i]` is the current size of character
    /// `i`'s file, zero when absent — with the character's prefilter in
    /// place. Fails, changing nothing, when two characters name the same
    /// file or a combined prefilter does not build; succeeds on every
    /// other configuration. The caller registers the files with its
    /// notifier.
    pub fn init(&mut self, file_sizes: &Vec<u64>) -> (r: Result<(), ComradeError>)
        requires
            old(self).wf(),
        ensures
            final(self).wf(),
            r is Ok <==> ({
                let cs = old(self).snapshot.characters@;
                &&& (forall|i: int, j: int|
                    0 <= i < j < cs.len() ==> (#[trigger] cs[i])@.filename != (#[trigger] cs[
                        j
                    ])@.filename)
                &&& (forall|i: int|
                    0 <= i < old(self).snapshot.sets@.len() ==> set_builds(
                        strs_view((#[trigger] old(self).snapshot.sets@[i]).patterns@),
                    ))
            }),
            r is Err ==> *final(self) == *old(self),
            (exists|i: int, j: int|
                0 <= i < j < old(self).snapshot.characters@.len() && (#[trigger] old(
                    self,
                ).snapshot.characters@[i])@.filename == (#[trigger] old(
                    self,
                ).snapshot.characters@[j])@.filename) ==> (r matches Err(
                ComradeError::LogWatcherError(LogWatcherError::AlreadyWatching { .. }),
            )),
            r is Ok ==> ({
                let cs = old(self).snapshot.characters@;
                &&& forall|i: int, j: int|
                    0 <= i < j < cs.len() ==> (#[trigger] cs[i])@.filename != (#[trigger] cs[
                        j
                    ])@.filename
                &&& final(self).tailers@.len() == cs.len()
                &&& forall|i: int|
                    0 <= i < cs.len() ==> (#[trigger] final(self).tailers@[i])@ == (TailerV {
                        id: cs[i]@.id,
                        filename: cs[i]@.filename,
                        offset: if i < file_sizes@.len() {
                            file_sizes@[i]
                        } else {
                            0
                        },
                        partial: Seq::<char>::empty(),
                        filter: Option::Some(strs_view(old(self).snapshot.sets@[i].patterns@)),
                    })
                &&& final(self).characters == old(self).characters
                &&& final(self).trigger_sets == old(self).trigger_sets
                &&& final(self).snapshot == old(self).snapshot
                &&& final(self).driver == old(self).driver
                &&& final(self).bus == old(self).bus
                &&& final(self).started == old(self).started
            }),
    {
        let n = self.snapshot.characters.len();
        for i in 0..n
            invariant
                *self == *old(self),
                self.wf(),
                n == self.snapshot.characters@.len(),
                forall|a: int, b: int|
                    0 <= a < b < n && a < i ==> (#[trigger] self.snapshot.characters@[
                        a
                    ])@.filename != (#[trigger] self.snapshot.characters@[b])@.filename,
        {
            for j in (i + 1)..n
                invariant
                    *self == *old(self),
                    self.wf(),
                    i < n,
                    n == self.snapshot.characters@.len(),
                    forall|a: int, b: int|
                        0 <= a < b < n && a < i ==> (#[trigger] self.snapshot.characters@[
                            a
                        ])@.filename != (#[trigger] self.snapshot.characters@[b])@.filename,
                    forall|b: int|
                        i < b < j ==> (#[trigger] self.snapshot.characters@[b])@.filename
                            != self.snapshot.characters@[i as int]@.filename,
            {
                if str_eq(
                    self.snapshot.characters[i].filename.as_str(),
                    self.snapshot.characters[j].filename.as_str(),
                ) {
                    proof {
                        assert(self.snapshot.characters@[i as int]@.filename == self.snapshot
                            .characters@[j as int]@.filename);
                    }
                    return Err(
                        ComradeError::LogWatcherError(
                            LogWatcherError::AlreadyWatching {
                                path: self.snapshot.characters[j].filename.clone(),
                            },
                        ),
                    );
                }
            }
        }
        let filters = match Self::build_filters(&self.snapshot) {
            Ok(f) => f,
            Err(e) => {
                proof {
                    assert(exists|i: int|
                        0 <= i < self.snapshot.sets@.len() && !set_builds(
                            strs_view((#[trigger] self.snapshot.sets@[i]).patterns@),
                        ));
                }
                return Err(ComradeError::TriggerError(e));
            },
        };
        let mut ts: Vec<Tailer> = Vec::new();
        for i in 0..n
            invariant
                n == self.snapshot.characters@.len(),
                self.snapshot.wf(),
                filters@.len() == self.snapshot.sets@.len(),
                n == self.snapshot.sets@.len(),
                forall|k: int|
                    0 <= k < filters@.len() ==> set_patterns(#[trigger] filters@[k]) == strs_view(
                        self.snapshot.sets@[k].patterns@,
                    ),
                ts@.len() == i,
                forall|k: int|
                    0 <= k < i ==> (#[trigger] ts@[k])@ == (TailerV {
                        id: self.snapshot.characters@[k]@.id,
                        filename: self.snapshot.characters@[k]@.filename,
                        offset: if k < file_sizes@.len() {
                            file_sizes@[k]
                        } else {
                            0
                        },
                        partial: Seq::<char>::empty(),
                        filter: Option::Some(strs_view(self.snapshot.sets@[k].patterns@)),
                    }),
        {
            let c = &self.snapshot.characters[i];
            let off: u64 = if i < file_sizes.len() {
                file_sizes[i]
            } else {
                0
            };
            let mut t = Tailer::new(c.id.clone(), c.filename.clone(), off);
            t.set_filter(regex_set_clone(&filters[i]));
            ts.push(t);
        }
        self.tailers = ts;
        Ok(())
    }

    /// Where the tailer for a file stands, if the file is watched.
    fn find_tailer(&self, filename: &str) -> (r: Option<usize>)
        ensures
            r is Some <==> tailer_pos(self.tailers@, filename@) < self.tailers@.len(),
            r is Some ==> r.unwrap() == tailer_pos(self.tailers@, filename@),
    {
        let n = self.tailers.len();
        for i in 0..n
            invariant
                n == self.tailers@.len(),
                forall|k: int| 0 <= k < i ==> (#[trigger] self.tailers@[k])@.filename != filename@,
        {
            if str_eq(self.tailers[i].filename.as_str(), filename) {
                proof {
                    lemma_tailer_pos(self.tailers@, filename@);
                    let tp = tailer_pos(self.tailers@, filename@) as int;
                    assert(tp == i) by {
                        if tp < i {
                            assert(self.tailers@[tp]@.filename != filename@);
                        } else if tp > i {
                            assert(self.tailers@[i as int]@.filename != filename@);
                        }
                    }
                }
                return Some(i);
            }
        }
        proof {
            lemma_tailer_pos(self.tailers@, filename@);
            let tp = tailer_pos(self.tailers@, filename@) as int;
            assert(tp == n) by {
                if tp < n {
                    assert(self.tailers@[tp]@.filename == filename@);
                    assert(self.tailers@[tp]@.filename != filename@);
                }
            }
        }
        None
    }

    /// Reacts to one filesystem notification. A create marks a rotation:
    /// the file's tailer starts over at offset zero. A modify asks the
    /// caller to read the file from the returned offset and hand the bytes
    /// to `append`. Removals and the rest change nothing — a removed
    /// file's tailer waits for the create that replaces it.
    pub fn on_file_event(&mut self, filename: &str, kind: FileEventKind) -> (r: Option<u64>)
        requires
            old(self).wf(),
        ensures
            final(self).wf(),
            kind != FileEventKind::Create ==> *final(self) == *old(self),
            kind != FileEventKind::Modify ==> r is None,
            kind == FileEventKind::Modify ==> ({
                let tp = tailer_pos(old(self).tailers@, filename@);
                if tp < old(self).tailers@.len() {
                    r == Option::Some(old(self).tailers@[tp as int]@.offset)
                } else {
                    r is None
                }
            }),
            kind == FileEventKind::Create ==> ({
                let tp = tailer_pos(old(self).tailers@, filename@);
                if tp < old(self).tailers@.len() {
                    &&& final(self).tailers@.len() == old(self).tailers@.len()
                    &&& final(self).tailers@[tp as int]@ == (TailerV {
                        offset: 0,
                        partial: Seq::<char>::empty(),
                        ..old(self).tailers@[tp as int]@
                    })
                    &&& forall|k: int|
                        0 <= k < old(self).tailers@.len() && k != tp
                            ==> #[trigger] final(self).tailers@[k] == old(self).tailers@[k]
                    &&& final(self).characters == old(self).characters
                    &&& final(self).trigger_sets == old(self).trigger_sets
                    &&& final(self).snapshot == old(self).snapshot
                    &&& final(self).driver == old(self).driver
                    &&& final(self).bus == old(self).bus
                    &&& final(self).started == old(self).started
                } else {
                    *final(self) == *old(self)
                }
            }),
    {
        match kind {
            FileEventKind::Create => {
                match self.find_tailer(filename) {
                    Some(ti) => {
                        let mut t = self.tailers.remove(ti);
                        t.on_create();
                        let ghost t2 = t;
                        self.tailers.insert(ti, t);
                        proof {
                            assert(self.tailers@ =~= old(self).tailers@.update(ti as int, t2));
                        }
                    },
                    None => {},
                }
                None
            },
            FileEventKind::Modify => {
                match self.find_tailer(filename) {
                    Some(ti) => Some(self.tailers[ti].offset),
                    None => None,
                }
            },
            _ => None,
        }
    }

    /// What handing one chunk of file bytes to the engine does, from one
    /// state to the next: nothing before `start` or for an unwatched
    /// file; otherwise the file's tailer frames the chunk into records,
    /// the driver fires the triggers of each record, and the resulting
    /// events join the queue; an event that finds the queue full is
    /// dropped.
    pub open spec fn append_spec(
        pre: Comrade,
        post: Comrade,
        filename: Seq<char>,
        chunk: Seq<char>,
        bytes_read: u64,
        now: u64,
        fallback: Timestamp,
    ) -> bool {
        if !pre.started || tailer_pos(pre.tailers@, filename) >= pre.tailers@.len() {
            post == pre
        } else {
            let tp = tailer_pos(pre.tailers@, filename) as int;
            let t0 = pre.tailers@[tp]@;
            let s = t0.partial + chunk;
            let levs = events_of_lines(t0.id, complete_lines(s), t0.filter, fallback);
            &&& post.characters == pre.characters
            &&& post.trigger_sets == pre.trigger_sets
            &&& post.snapshot == pre.snapshot
            &&& post.started == pre.started
            &&& post.bus.capacity == pre.bus.capacity
            &&& post.driver.running == pre.driver.running
            &&& post.tailers@.len() == pre.tailers@.len()
            &&& post.tailers@[tp]@ == (TailerV {
                offset: sat_add64(t0.offset, bytes_read),
                partial: line_rest(s),
                ..t0
            })
            &&& forall|k: int|
                0 <= k < pre.tailers@.len() && k != tp ==> #[trigger] post.tailers@[k]
                    == pre.tailers@[k]
            &&& las_view(post.driver.actions@) == las_view(pre.driver.actions@)
                + records_retained(pre.snapshot, levs, now)
            &&& events_view(post.bus.queue@) == enqueue_lossy(
                events_view(pre.bus.queue@),
                records_emits(pre.snapshot, levs, now),
                pre.bus.capacity as int,
            )
        }
    }

    /// Hands the engine the bytes read from a watched file, with an
    /// explicit fallback timestamp for records whose own timestamp does
    /// not parse.
    pub fn append_at(
        &mut self,
        filename: &str,
        chunk: &str,
        bytes_read: u64,
        now_ms: u64,
        fallback: Timestamp,
    )
        requires
            old(self).wf(),
        ensures
            final(self).wf(),
            Self::append_spec(
                *old(self),
                *final(self),
                filename@,
                chunk@,
                bytes_read,
                now_ms,
                fallback,
            ),
    {
        if !self.started {
            return ;
        }
        let ti = match self.find_tailer(filename) {
            Some(i) => i,
            None => {
                return ;
            },
        };
        let ghost t0 = old(self).tailers@[ti as int]@;
        let mut t = self.tailers.remove(ti);
        let mut levs = t.process_chunk(chunk, bytes_read, fallback);
        let ghost t2 = t;
        self.tailers.insert(ti, t);
        proof {
            assert(self.tailers@ =~= old(self).tailers@.update(ti as int, t2));
        }
        let ghost lv0 = logs_view(levs@);
        let ghost snap0 = self.snapshot;
        let ghost acts0 = las_view(old(self).driver.actions@);
        let ghost bus0 = events_view(old(self).bus.queue@);
        let ghost cap = old(self).bus.capacity as int;
        let ghost tailers_mid = self.tailers@;
        proof {
            assert(logs_view(levs@) =~= lv0);
        }
        while levs.len() > 0
            invariant
                self.characters == old(self).characters,
                self.trigger_sets == old(self).trigger_sets,
                self.snapshot == old(self).snapshot,
                self.snapshot == snap0,
                self.snapshot.wf(),
                self.started == old(self).started,
                self.tailers@ == tailers_mid,
                self.driver.running == old(self).driver.running,
                self.driver.wf(),
                self.bus.capacity == old(self).bus.capacity,
                cap == self.bus.capacity as int,
                acts0 + records_retained(snap0, lv0, now_ms) == las_view(self.driver.actions@)
                    + records_retained(snap0, logs_view(levs@), now_ms),
                enqueue_lossy(bus0, records_emits(snap0, lv0, now_ms), cap) == enqueue_lossy(
                    events_view(self.bus.queue@),
                    records_emits(snap0, logs_view(levs@), now_ms),
                    cap,
                ),
            decreases levs@.len(),
        {
            let ghost cur = logs_view(levs@);
            let ghost acts_pre = las_view(self.driver.actions@);
            let ghost bus_pre = events_view(self.bus.queue@);
            let ev = levs.remove(0);
            proof {
                assert(cur[0] == ev@);
                assert(logs_view(levs@) =~= cur.skip(1));
            }
            let out = self.driver.on_log_event(&self.snapshot, &ev, now_ms);
            proof {
                let cp = char_pos(snap0.characters@, ev@.id);
                if cp < snap0.characters@.len() {
                    assert(events_view(out@) == record_emits(snap0, ev@, now_ms));
                    assert(las_view(self.driver.actions@) == acts_pre + record_retained(
                        snap0,
                        ev@,
                        now_ms,
                    ));
                } else {
                    assert(events_view(out@) == Seq::<EventV>::empty());
                    assert(record_emits(snap0, ev@, now_ms) == Seq::<EventV>::empty());
                    assert(record_retained(snap0, ev@, now_ms) =~= Seq::<
                        crate::live::LiveActionV,
                    >::empty());
                    assert(las_view(self.driver.actions@) =~= acts_pre + record_retained(
                        snap0,
                        ev@,
                        now_ms,
                    ));
                }
                assert(records_emits(snap0, cur, now_ms) == record_emits(snap0, cur[0], now_ms)
                    + records_emits(snap0, cur.skip(1), now_ms));
                assert(records_retained(snap0, cur, now_ms) == record_retained(
                    snap0,
                    cur[0],
                    now_ms,
                ) + records_retained(snap0, cur.skip(1), now_ms));
                lemma_enqueue_concat(
                    bus_pre,
                    record_emits(snap0, cur[0], now_ms),
                    records_emits(snap0, cur.skip(1), now_ms),
                    cap,
                );
                assert(acts_pre + (record_retained(snap0, cur[0], now_ms) + records_retained(
                    snap0,
                    cur.skip(1),
                    now_ms,
                )) =~= (acts_pre + record_retained(snap0, cur[0], now_ms)) + records_retained(
                    snap0,
                    cur.skip(1),
                    now_ms,
                ));
            }
            self.bus.push_all(out);
        }
        proof {
            assert(logs_view(levs@) =~= Seq::<LogEventV>::empty());
            assert(records_retained(snap0, logs_view(levs@), now_ms) == Seq::<
                crate::live::LiveActionV,
            >::empty());
            assert(records_emits(snap0, logs_view(levs@), now_ms) == Seq::<EventV>::empty());
            assert(las_view(self.driver.actions@) + Seq::<crate::live::LiveActionV>::empty()
                =~= las_view(self.driver.actions@));
            assert(lv0 == events_of_lines(
                t0.id,
                complete_lines(t0.partial + chunk@),
                t0.filter,
                fallback,
            ));
        }
    }

    /// Law: rotation restarts the frame. Once a create notification has
    /// reset a file's tailer — read position zero, empty frame buffer —
    /// the next bytes handed in are framed from the very beginning of the
    /// new file: the queue receives exactly the records of the chunk's own
    /// complete lines, with nothing stale in front, and the read position
    /// advances from zero.
    pub proof fn lemma_rotation_restarts_frame(
        pre: Comrade,
        post: Comrade,
        filename: Seq<char>,
        chunk: Seq<char>,
        bytes_read: u64,
        now: u64,
        fallback: Timestamp,
    )
        requires
            pre.started,
            tailer_pos(pre.tailers@, filename) < pre.tailers@.len(),
            pre.tailers@[tailer_pos(pre.tailers@, filename) as int]@.offset == 0,
            pre.tailers@[tailer_pos(pre.tailers@, filename) as int]@.partial == Seq::<
                char,
            >::empty(),
            Self::append_spec(pre, post, filename, chunk, bytes_read, now, fallback),
        ensures
            ({
                let t0 = pre.tailers@[tailer_pos(pre.tailers@, filename) as int]@;
                let levs = events_of_lines(t0.id, complete_lines(chunk), t0.filter, fallback);
                &&& events_view(post.bus.queue@) == enqueue_lossy(
                    events_view(pre.bus.queue@),
                    records_emits(pre.snapshot, levs, now),
                    pre.bus.capacity as int,
                )
                &&& post.tailers@[tailer_pos(pre.tailers@, filename) as int]@.offset == sat_add64(
                    0,
                    bytes_read,
                )
            }),
    {
        let tp = tailer_pos(pre.tailers@, filename) as int;
        let t0 = pre.tailers@[tp]@;
        assert(t0.partial + chunk =~= chunk);
    }

    /// Law: a stopped engine produces nothing: whatever bytes arrive for
    /// whatever file, nothing about it changes — no record is framed, no
    /// trigger fires, no event joins the queue.
    pub proof fn lemma_stopped_produces_nothing(
        pre: Comrade,
        post: Comrade,
        filename: Seq<char>,
        chunk: Seq<char>,
        bytes_read: u64,
        now: u64,
        fallback: Timestamp,
    )
        requires
            !pre.started,
            Self::append_spec(pre, post, filename, chunk, bytes_read, now, fallback),
        ensures
            post == pre,
    {
    }

    /// Hands the engine the bytes read from a watched file. Records whose
    /// timestamp does not parse are dated with the wall clock at the time
    /// of the call.
    pub fn append(&mut self, filename: &str, chunk: &str, bytes_read: u64, now_ms: u64)
        requires
            old(self).wf(),
        ensures
            final(self).wf(),
            exists|fb: Timestamp|
                #[trigger] Self::append_spec(
                    *old(self),
                    *final(self),
                    filename@,
                    chunk@,
                    bytes_read,
                    now_ms,
                    fb,
                ),
    {
        let fallback = local_now();
        self.append_at(filename, chunk, bytes_read, now_ms, fallback);
    }

    /// One clock tick: while the engine runs, every action in flight is
    /// drained once and the resulting events join the queue.
    pub fn on_tick(&mut self, now_ms: u64)
        requires
            old(self).wf(),
        ensures
            final(self).wf(),
            final(self).characters == old(self).characters,
            final(self).trigger_sets == old(self).trigger_sets,
            final(self).snapshot == old(self).snapshot,
            final(self).tailers == old(self).tailers,
            final(self).started == old(self).started,
            final(self).driver.running == old(self).driver.running,
            final(self).bus.capacity == old(self).bus.capacity,
            !old(self).driver.running ==> final(self).driver == old(self).driver
                && final(self).bus == old(self).bus,
            old(self).driver.running ==> las_view(final(self).driver.actions@)
                == crate::driver::retained(las_view(old(self).driver.actions@), now_ms),
            old(self).driver.running ==> events_view(final(self).bus.queue@) == enqueue_lossy(
                events_view(old(self).bus.queue@),
                crate::driver::first_emits(las_view(old(self).driver.actions@), now_ms),
                old(self).bus.capacity as int,
            ),
    {
        if !self.driver.running {
            return ;
        }
        let evs = self.driver.on_tick(now_ms);
        self.bus.push_all(evs);
    }
}

} // verus!
