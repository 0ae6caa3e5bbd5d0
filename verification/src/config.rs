//! Configured characters.
//!
//! A character names the log file the engine tails for it and the triggers
//! its owner has switched off. Characters are immutable within one
//! configuration generation; loading a new configuration replaces them.

use vstd::prelude::*;

use crate::triggers::{TriggerRef, TriggerRefV};

verus! {

/// The views of a list of trigger references, in order.
pub open spec fn refs_view(v: Seq<TriggerRef>) -> Seq<TriggerRefV> {
    v.map_values(|r: TriggerRef| r@)
}

/// A configured character.
#[derive(Debug)]
pub struct Character {
    pub id: String,
    pub name: String,
    pub server: String,
    pub filename: String,
    pub disabled_triggers: Vec<TriggerRef>,
}

#[verifier::ext_equal]
pub struct CharacterV {
    pub id: Seq<char>,
    pub name: Seq<char>,
    pub server: Seq<char>,
    pub filename: Seq<char>,
    pub disabled_triggers: Seq<TriggerRefV>,
}

impl View for Character {
    type V = CharacterV;

    open spec fn view(&self) -> CharacterV {
        CharacterV {
            id: self.id@,
            name: self.name@,
            server: self.server@,
            filename: self.filename@,
            disabled_triggers: refs_view(self.disabled_triggers@),
        }
    }
}

impl Clone for Character {
    fn clone(&self) -> (r: Self)
        ensures
            r@ == self@,
    {
        let mut disabled: Vec<TriggerRef> = Vec::new();
        let n = self.disabled_triggers.len();
        for i in 0..n
            invariant
                n == self.disabled_triggers.len(),
                disabled@.len() == i,
                forall|k: int| 0 <= k < i ==> #[trigger] disabled@[k] == self.disabled_triggers@[k],
        {
            disabled.push(self.disabled_triggers[i].clone());
        }
        let r = Character {
            id: self.id.clone(),
            name: self.name.clone(),
            server: self.server.clone(),
            filename: self.filename.clone(),
            disabled_triggers: disabled,
        };
        proof {
            assert(refs_view(r.disabled_triggers@) =~= refs_view(self.disabled_triggers@));
            assert(r@ =~= self@);
        }
        r
    }
}

/// Whether a character has disabled the trigger `r` names.
pub open spec fn disables(c: CharacterV, r: TriggerRefV) -> bool {
    exists|i: int| 0 <= i < c.disabled_triggers.len() && c.disabled_triggers[i] == r
}

impl Character {
    /// Whether this character has disabled the given trigger.
    pub fn is_disabled(&self, r: &TriggerRef) -> (b: bool)
        ensures
            b == disables(self@, r@),
    {
        let n = self.disabled_triggers.len();
        for i in 0..n
            invariant
                n == self.disabled_triggers.len(),
                forall|k: int| 0 <= k < i ==> refs_view(self.disabled_triggers@)[k] != r@,
        {
            if self.disabled_triggers[i] == *r {
                proof {
                    assert(refs_view(self.disabled_triggers@)[i as int] == self.disabled_triggers@[
                        i as int
                    ]@);
                    assert(self@.disabled_triggers[i as int] == r@);
                    assert(disables(self@, r@));
                }
                return true;
            }
            proof {
                assert(refs_view(self.disabled_triggers@)[i as int] == self.disabled_triggers@[i as int]@);
            }
        }
        false
    }
}

} // verus!
