//! Compiled triggers.
//!
//! At configuration load every trigger a character has not disabled is
//! compiled once: its search pattern becomes a ready regex, and the
//! character and trigger definitions ride along so outbound events can
//! point back at them.

use vstd::prelude::*;

use crate::config::{Character, CharacterV};
use crate::events::LogEvent;
use crate::expand::opt_views;
use crate::live::{ActionKindV, LiveAction, LiveActionV, live_of_template};
use crate::rex::{re_caps, re_match, re_names, re_pattern, re_valid, regex_captures,
    regex_capture_names, regex_new};
use crate::triggers::{Trigger, TriggerV};

verus! {

/// The views of a list of compiled triggers, in order.
pub open spec fn cts_view(v: Seq<CompiledTrigger>) -> Seq<CompiledTriggerV> {
    v.map_values(|c: CompiledTrigger| c@)
}

/// A trigger ready to run for one character: its pattern compiled, its
/// definition and its character kept by value.
#[derive(Debug)]
pub struct CompiledTrigger {
    pub character: Character,
    pub trigger: Trigger,
    pub regex: regex::Regex,
}

#[verifier::ext_equal]
pub struct CompiledTriggerV {
    pub character: CharacterV,
    pub trigger: TriggerV,
}

impl View for CompiledTrigger {
    type V = CompiledTriggerV;

    open spec fn view(&self) -> CompiledTriggerV {
        CompiledTriggerV { character: self.character@, trigger: self.trigger@ }
    }
}

impl CompiledTrigger {
    /// The compiled regex really is the compiled form of the trigger's
    /// search pattern.
    pub open spec fn wf(self) -> bool {
        re_pattern(self.regex) == self.trigger.search_text@
    }

    /// Compiles one trigger for one character. Fails exactly when the
    /// trigger's search pattern does not compile; the error text is the
    /// regex error.
    pub fn new(character: &Character, trigger: &Trigger) -> (r: Result<CompiledTrigger, String>)
        ensures
            r is Ok <==> re_valid(trigger@.search_text),
            r is Ok ==> r.unwrap()@ == (CompiledTriggerV {
                character: character@,
                trigger: trigger@,
            }),
            r is Ok ==> r.unwrap().wf(),
    {
        match regex_new(trigger.search_text.as_str()) {
            Ok(re) => Ok(
                CompiledTrigger {
                    character: character.clone(),
                    trigger: trigger.clone(),
                    regex: re,
                },
            ),
            Err(e) => Err(e),
        }
    }

    /// Runs the trigger against one matched record at time `now`. A match
    /// produces the full ordered list of live actions: first the record of
    /// the firing itself, then one action per template, texts expanded
    /// over the match's capture groups.
    pub fn execute(&self, event: &LogEvent, now: u64) -> (r: Option<Vec<LiveAction>>)
        requires
            self.wf(),
        ensures
            r is Some <==> re_match(self@.trigger.search_text, event@.message),
            r is Some ==> ({
                let acts = r.unwrap()@;
                let caps = re_caps(self@.trigger.search_text, event@.message);
                let names = re_names(self@.trigger.search_text);
                &&& acts.len() == 1 + self@.trigger.actions.len()
                &&& acts[0]@ == (LiveActionV {
                    kind: ActionKindV::Triggered {
                        character: self@.character,
                        trigger: self@.trigger,
                        log: event@,
                    },
                    delay_until: Option::None,
                    finished: false,
                })
                &&& forall|i: int|
                    0 <= i < self@.trigger.actions.len() ==> (#[trigger] acts[i + 1])@
                        == live_of_template(self@.trigger.actions[i], caps, names, now)
            }),
    {
        let ghost pattern = self@.trigger.search_text;
        let ghost msg = event@.message;
        let caps_vec = match regex_captures(&self.regex, event.message.as_str()) {
            Some(c) => c,
            None => {
                return None;
            },
        };
        let names_vec = regex_capture_names(&self.regex);
        proof {
            assert(opt_views(caps_vec@) =~= re_caps(pattern, msg)) by {
                assert forall|i: int| 0 <= i < caps_vec@.len() implies opt_views(caps_vec@)[i]
                    == re_caps(pattern, msg)[i] by {
                    assert(opt_views(caps_vec@)[i] == (match caps_vec@[i] {
                        Option::Some(s) => Option::Some(s@),
                        Option::None => Option::<Seq<char>>::None,
                    }));
                }
            }
            assert(opt_views(names_vec@) =~= re_names(pattern)) by {
                assert forall|i: int| 0 <= i < names_vec@.len() implies opt_views(names_vec@)[i]
                    == re_names(pattern)[i] by {
                    assert(opt_views(names_vec@)[i] == (match names_vec@[i] {
                        Option::Some(s) => Option::Some(s@),
                        Option::None => Option::<Seq<char>>::None,
                    }));
                }
            }
        }
        let mut acts: Vec<LiveAction> = Vec::new();
        acts.push(
            LiveAction::triggered(self.character.clone(), self.trigger.clone(), event.clone()),
        );
        let n = self.trigger.actions.len();
        for i in 0..n
            invariant
                n == self.trigger.actions.len(),
                acts@.len() == i + 1,
                opt_views(caps_vec@) == re_caps(pattern, msg),
                opt_views(names_vec@) == re_names(pattern),
                pattern == self@.trigger.search_text,
                msg == event@.message,
                acts@[0]@ == (LiveActionV {
                    kind: ActionKindV::Triggered {
                        character: self@.character,
                        trigger: self@.trigger,
                        log: event@,
                    },
                    delay_until: Option::None,
                    finished: false,
                }),
                forall|k: int|
                    0 <= k < i ==> (#[trigger] acts@[k + 1])@ == live_of_template(
                        self@.trigger.actions[k],
                        re_caps(pattern, msg),
                        re_names(pattern),
                        now,
                    ),
        {
            proof {
                assert(self@.trigger.actions[i as int] == self.trigger.actions@[i as int]@);
            }
            acts.push(LiveAction::from_template(&self.trigger.actions[i], &caps_vec, &names_vec, now));
        }
        Some(acts)
    }
}

} // verus!
