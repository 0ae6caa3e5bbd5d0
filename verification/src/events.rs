//! Outbound events.
//!
//! The engine reports its work as a stream of events: a raw record of each
//! trigger that fired, text messages to show, and the ticks of running
//! countdowns. Times are milliseconds on the caller's clock.

use vstd::prelude::*;

use crate::config::{Character, CharacterV};
use crate::stamp::Timestamp;
use crate::triggers::{Trigger, TriggerV};

verus! {

/// One matched log record: which character's file it came from, when it was
/// written, and the message part of the line.
#[derive(Debug)]
pub struct LogEvent {
    pub id: String,
    pub date: Timestamp,
    pub message: String,
}

#[verifier::ext_equal]
pub struct LogEventV {
    pub id: Seq<char>,
    pub date: Timestamp,
    pub message: Seq<char>,
}

impl View for LogEvent {
    type V = LogEventV;

    open spec fn view(&self) -> LogEventV {
        LogEventV { id: self.id@, date: self.date, message: self.message@ }
    }
}

impl Clone for LogEvent {
    fn clone(&self) -> (r: Self)
        ensures
            r == *self,
    {
        LogEvent { id: self.id.clone(), date: self.date, message: self.message.clone() }
    }
}

/// The views of a list of log records, in order.
pub open spec fn logs_view(v: Seq<LogEvent>) -> Seq<LogEventV> {
    v.map_values(|e: LogEvent| e@)
}

/// What an event reports.
#[derive(Debug)]
pub enum EventKind {
    Triggered { character: Character, trigger: Trigger, log: LogEvent },
    DisplayText(String),
    Countdown { text: String, duration: u64, remaining: u64 },
}

#[verifier::ext_equal]
pub enum EventKindV {
    Triggered { character: CharacterV, trigger: TriggerV, log: LogEventV },
    DisplayText(Seq<char>),
    Countdown { text: Seq<char>, duration: u64, remaining: u64 },
}

impl View for EventKind {
    type V = EventKindV;

    open spec fn view(&self) -> EventKindV {
        match self {
            EventKind::Triggered { character, trigger, log } => EventKindV::Triggered {
                character: character@,
                trigger: trigger@,
                log: log@,
            },
            EventKind::DisplayText(text) => EventKindV::DisplayText(text@),
            EventKind::Countdown { text, duration, remaining } => EventKindV::Countdown {
                text: text@,
                duration: *duration,
                remaining: *remaining,
            },
        }
    }
}

/// The views of a list of events, in order.
pub open spec fn events_view(v: Seq<Event>) -> Seq<EventV> {
    v.map_values(|e: Event| e@)
}

/// How many of the events are trigger records.
pub open spec fn count_triggered(evs: Seq<EventV>) -> int
    decreases evs.len(),
{
    if evs.len() == 0 {
        0
    } else {
        (if evs[0].kind is Triggered {
            1int
        } else {
            0int
        }) + count_triggered(evs.skip(1))
    }
}

/// How many of the events are text messages.
pub open spec fn count_display(evs: Seq<EventV>) -> int
    decreases evs.len(),
{
    if evs.len() == 0 {
        0
    } else {
        (if evs[0].kind is DisplayText {
            1int
        } else {
            0int
        }) + count_display(evs.skip(1))
    }
}

/// Both counters split over concatenation.
pub proof fn lemma_counts_concat(a: Seq<EventV>, b: Seq<EventV>)
    ensures
        count_triggered(a + b) == count_triggered(a) + count_triggered(b),
        count_display(a + b) == count_display(a) + count_display(b),
    decreases a.len(),
{
    if a.len() == 0 {
        assert(a + b =~= b);
    } else {
        assert((a + b)[0] == a[0]);
        assert((a + b).skip(1) =~= a.skip(1) + b);
        lemma_counts_concat(a.skip(1), b);
    }
}

/// An outbound event: what happened, and when it was produced.
#[derive(Debug)]
pub struct Event {
    pub created: u64,
    pub kind: EventKind,
}

#[verifier::ext_equal]
pub struct EventV {
    pub created: u64,
    pub kind: EventKindV,
}

impl View for Event {
    type V = EventV;

    open spec fn view(&self) -> EventV {
        EventV { created: self.created, kind: self.kind@ }
    }
}

impl Event {
    /// Wraps an event kind with the moment it was produced.
    pub(crate) fn new(kind: EventKind, now: u64) -> (r: Event)
        ensures
            r@ == (EventV { created: now, kind: kind@ }),
    {
        Event { created: now, kind }
    }

    /// When the event was produced, in caller-clock milliseconds.
    pub fn created(&self) -> (r: u64)
        ensures
            r == self@.created,
    {
        self.created
    }

    /// What the event reports.
    pub fn kind(&self) -> (r: &EventKind)
        ensures
            r@ == self@.kind,
    {
        &self.kind
    }
}

} // verus!
