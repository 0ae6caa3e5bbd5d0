//! Declarative triggers.
//!
//! A trigger names a search pattern and an ordered list of action templates.
//! Triggers come in sets, one per source; a trigger is identified globally
//! by its source together with its id within that source. Durations and
//! delays are whole seconds.

use vstd::prelude::*;

verus! {

/// Where a trigger set comes from.
#[derive(Debug)]
pub enum TriggerSource {
    Local,
    Remote(String),
}

pub enum TriggerSourceV {
    Local,
    Remote(Seq<char>),
}

impl View for TriggerSource {
    type V = TriggerSourceV;

    open spec fn view(&self) -> TriggerSourceV {
        match self {
            TriggerSource::Local => TriggerSourceV::Local,
            TriggerSource::Remote(s) => TriggerSourceV::Remote(s@),
        }
    }
}

impl Clone for TriggerSource {
    fn clone(&self) -> (r: Self)
        ensures
            r == *self,
    {
        match self {
            TriggerSource::Local => TriggerSource::Local,
            TriggerSource::Remote(s) => TriggerSource::Remote(s.clone()),
        }
    }
}

impl PartialEq for TriggerSource {
    fn eq(&self, other: &Self) -> (r: bool) {
        match (self, other) {
            (TriggerSource::Local, TriggerSource::Local) => true,
            (TriggerSource::Remote(a), TriggerSource::Remote(b)) => *a == *b,
            _ => false,
        }
    }
}

impl vstd::std_specs::cmp::PartialEqSpecImpl for TriggerSource {
    open spec fn obeys_eq_spec() -> bool {
        true
    }

    open spec fn eq_spec(&self, other: &Self) -> bool {
        self@ == other@
    }
}

impl Eq for TriggerSource {

}

/// Id of a trigger, unique within its source.
#[derive(Debug)]
pub struct TriggerId(pub String);

impl View for TriggerId {
    type V = Seq<char>;

    open spec fn view(&self) -> Seq<char> {
        self.0@
    }
}

impl Clone for TriggerId {
    fn clone(&self) -> (r: Self)
        ensures
            r == *self,
    {
        TriggerId(self.0.clone())
    }
}

impl PartialEq for TriggerId {
    fn eq(&self, other: &Self) -> (r: bool) {
        self.0 == other.0
    }
}

impl vstd::std_specs::cmp::PartialEqSpecImpl for TriggerId {
    open spec fn obeys_eq_spec() -> bool {
        true
    }

    open spec fn eq_spec(&self, other: &Self) -> bool {
        self@ == other@
    }
}

impl Eq for TriggerId {

}

/// Global identity of a trigger: its source and its id there.
#[derive(Debug)]
pub struct TriggerRef {
    pub source: TriggerSource,
    pub id: TriggerId,
}

#[verifier::ext_equal]
pub struct TriggerRefV {
    pub source: TriggerSourceV,
    pub id: Seq<char>,
}

impl View for TriggerRef {
    type V = TriggerRefV;

    open spec fn view(&self) -> TriggerRefV {
        TriggerRefV { source: self.source@, id: self.id@ }
    }
}

impl Clone for TriggerRef {
    fn clone(&self) -> (r: Self)
        ensures
            r == *self,
    {
        TriggerRef { source: self.source.clone(), id: self.id.clone() }
    }
}

impl PartialEq for TriggerRef {
    fn eq(&self, other: &Self) -> (r: bool) {
        self.source == other.source && self.id == other.id
    }
}

impl vstd::std_specs::cmp::PartialEqSpecImpl for TriggerRef {
    open spec fn obeys_eq_spec() -> bool {
        true
    }

    open spec fn eq_spec(&self, other: &Self) -> bool {
        self@ == other@
    }
}

impl Eq for TriggerRef {

}

impl TriggerRef {
    pub fn new(source: TriggerSource, id: TriggerId) -> (r: TriggerRef)
        ensures
            r == (TriggerRef { source, id }),
    {
        TriggerRef { source, id }
    }
}

/// A disabled trigger as a character's configuration names it.
#[derive(Debug)]
pub struct DisabledTrigger {
    pub source: TriggerSource,
    pub id: TriggerId,
}

impl View for DisabledTrigger {
    type V = TriggerRefV;

    open spec fn view(&self) -> TriggerRefV {
        TriggerRefV { source: self.source@, id: self.id@ }
    }
}

impl DisabledTrigger {
    /// The trigger this entry disables.
    pub fn to_ref(self) -> (r: TriggerRef)
        ensures
            r@ == self@,
    {
        TriggerRef { source: self.source, id: self.id }
    }
}

/// One step a fired trigger takes: show a message, or run a countdown.
/// Texts are templates; `$k` and `$name` in them refer to the capture
/// groups of the trigger's pattern.
#[derive(Debug)]
pub enum Action {
    DisplayText { text: String, delay: Option<u64> },
    Countdown { text: String, duration: u64, delay: Option<u64> },
}

#[verifier::ext_equal]
pub enum ActionV {
    DisplayText { text: Seq<char>, delay: Option<u64> },
    Countdown { text: Seq<char>, duration: u64, delay: Option<u64> },
}

impl View for Action {
    type V = ActionV;

    open spec fn view(&self) -> ActionV {
        match self {
            Action::DisplayText { text, delay } => ActionV::DisplayText {
                text: text@,
                delay: *delay,
            },
            Action::Countdown { text, duration, delay } => ActionV::Countdown {
                text: text@,
                duration: *duration,
                delay: *delay,
            },
        }
    }
}

impl Clone for Action {
    fn clone(&self) -> (r: Self)
        ensures
            r == *self,
    {
        match self {
            Action::DisplayText { text, delay } => Action::DisplayText {
                text: text.clone(),
                delay: *delay,
            },
            Action::Countdown { text, duration, delay } => Action::Countdown {
                text: text.clone(),
                duration: *duration,
                delay: *delay,
            },
        }
    }
}

/// The views of a list of actions, in order.
pub open spec fn actions_view(v: Seq<Action>) -> Seq<ActionV> {
    v.map_values(|a: Action| a@)
}

/// A declarative trigger: a name, a comment, a search pattern and the
/// actions to take when the pattern matches a log line.
#[derive(Debug)]
pub struct Trigger {
    pub name: String,
    pub comment: String,
    pub search_text: String,
    pub actions: Vec<Action>,
}

#[verifier::ext_equal]
pub struct TriggerV {
    pub name: Seq<char>,
    pub comment: Seq<char>,
    pub search_text: Seq<char>,
    pub actions: Seq<ActionV>,
}

impl View for Trigger {
    type V = TriggerV;

    open spec fn view(&self) -> TriggerV {
        TriggerV {
            name: self.name@,
            comment: self.comment@,
            search_text: self.search_text@,
            actions: actions_view(self.actions@),
        }
    }
}

impl Clone for Trigger {
    fn clone(&self) -> (r: Self)
        ensures
            r@ == self@,
    {
        let mut actions: Vec<Action> = Vec::new();
        let n = self.actions.len();
        for i in 0..n
            invariant
                n == self.actions.len(),
                actions@.len() == i,
                forall|k: int| 0 <= k < i ==> #[trigger] actions@[k] == self.actions@[k],
        {
            actions.push(self.actions[i].clone());
        }
        let r = Trigger {
            name: self.name.clone(),
            comment: self.comment.clone(),
            search_text: self.search_text.clone(),
            actions,
        };
        proof {
            assert(actions_view(r.actions@) =~= actions_view(self.actions@));
            assert(r@ =~= self@);
        }
        r
    }
}

/// A set of triggers from one source. The list keeps the set's iteration
/// order; ids are unique within the set.
#[derive(Debug)]
pub struct TriggerSet {
    pub source: TriggerSource,
    pub triggers: Vec<(TriggerId, Trigger)>,
}

#[verifier::ext_equal]
pub struct TriggerSetV {
    pub source: TriggerSourceV,
    pub triggers: Seq<(Seq<char>, TriggerV)>,
}

impl View for TriggerSet {
    type V = TriggerSetV;

    open spec fn view(&self) -> TriggerSetV {
        TriggerSetV {
            source: self.source@,
            triggers: self.triggers@.map_values(|p: (TriggerId, Trigger)| (p.0@, p.1@)),
        }
    }
}

/// The views of a list of trigger sets, in order.
pub open spec fn sets_view(v: Seq<TriggerSet>) -> Seq<TriggerSetV> {
    v.map_values(|s: TriggerSet| s@)
}

} // verus!
