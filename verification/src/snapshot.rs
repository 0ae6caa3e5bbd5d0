//! Configuration snapshots.
//!
//! Loading a configuration turns the characters and the declarative
//! trigger sets into one immutable snapshot: per character, the triggers
//! the character has enabled, each compiled, and the list of patterns its
//! prefilter is built from. The engine swaps whole snapshots; nothing in
//! one is ever mutated.

use vstd::prelude::*;

use crate::compiled::{CompiledTrigger, CompiledTriggerV};
use crate::config::{Character, CharacterV, disables};
use crate::errors::TriggerError;
use crate::expand::str_eq;
use crate::rex::re_valid;
pub use crate::rex::strs_view;
use crate::triggers::{Trigger, TriggerRef, TriggerRefV, TriggerSet, TriggerSetV, TriggerSourceV,
    TriggerV, sets_view};

verus! {

/// The views of a list of characters, in order.
pub open spec fn chars_view(v: Seq<Character>) -> Seq<CharacterV> {
    v.map_values(|c: Character| c@)
}

/// The views of a list of reference–trigger pairs, in order.
pub open spec fn pairs_view(v: Seq<(TriggerRef, Trigger)>) -> Seq<(TriggerRefV, TriggerV)> {
    v.map_values(|p: (TriggerRef, Trigger)| (p.0@, p.1@))
}

/// The triggers of one set that a character has enabled, with their
/// global references, in set order.
pub open spec fn enabled_pairs(
    c: CharacterV,
    src: TriggerSourceV,
    ts: Seq<(Seq<char>, TriggerV)>,
) -> Seq<(TriggerRefV, TriggerV)>
    decreases ts.len(),
{
    if ts.len() == 0 {
        Seq::empty()
    } else {
        let r = TriggerRefV { source: src, id: ts[0].0 };
        let rest = enabled_pairs(c, src, ts.skip(1));
        if disables(c, r) {
            rest
        } else {
            seq![(r, ts[0].1)] + rest
        }
    }
}

/// Everything a character has enabled, across the sets in order.
pub open spec fn enabled_all(c: CharacterV, ss: Seq<TriggerSetV>) -> Seq<(TriggerRefV, TriggerV)>
    decreases ss.len(),
{
    if ss.len() == 0 {
        Seq::empty()
    } else {
        enabled_pairs(c, ss[0].source, ss[0].triggers) + enabled_all(c, ss.skip(1))
    }
}

/// Whether every enabled pattern compiles.
pub open spec fn all_valid(ps: Seq<(TriggerRefV, TriggerV)>) -> bool {
    forall|j: int| 0 <= j < ps.len() ==> re_valid((#[trigger] ps[j]).1.search_text)
}

/// The search patterns of a list of enabled triggers, in order.
pub open spec fn patterns_of(ps: Seq<(TriggerRefV, TriggerV)>) -> Seq<Seq<char>> {
    ps.map_values(|p: (TriggerRefV, TriggerV)| p.1.search_text)
}

/// No enabled pair of one set carries a disabled reference.
proof fn lemma_disabled_excluded_set(
    c: CharacterV,
    src: TriggerSourceV,
    ts: Seq<(Seq<char>, TriggerV)>,
    r: TriggerRefV,
)
    requires
        disables(c, r),
    ensures
        forall|j: int|
            0 <= j < enabled_pairs(c, src, ts).len() ==> (#[trigger] enabled_pairs(c, src, ts)[
                j
            ]).0 != r,
    decreases ts.len(),
{
    if ts.len() > 0 {
        lemma_disabled_excluded_set(c, src, ts.skip(1), r);
        let head = TriggerRefV { source: src, id: ts[0].0 };
        let rest = enabled_pairs(c, src, ts.skip(1));
        if !disables(c, head) {
            assert(head != r);
            assert forall|j: int|
                0 <= j < enabled_pairs(c, src, ts).len() implies (#[trigger] enabled_pairs(
                c,
                src,
                ts,
            )[j]).0 != r by {
                if j > 0 {
                    assert(enabled_pairs(c, src, ts)[j] == rest[j - 1]);
                }
            }
        }
    }
}

/// Law: a trigger a character has disabled is never compiled for it: no
/// pair of the character's enabled triggers carries its reference,
/// whatever the sets hold.
pub proof fn lemma_disabled_excluded(c: CharacterV, ss: Seq<TriggerSetV>, r: TriggerRefV)
    requires
        disables(c, r),
    ensures
        forall|j: int|
            0 <= j < enabled_all(c, ss).len() ==> (#[trigger] enabled_all(c, ss)[j]).0 != r,
    decreases ss.len(),
{
    if ss.len() > 0 {
        lemma_disabled_excluded_set(c, ss[0].source, ss[0].triggers, r);
        lemma_disabled_excluded(c, ss.skip(1), r);
        let head = enabled_pairs(c, ss[0].source, ss[0].triggers);
        let rest = enabled_all(c, ss.skip(1));
        assert forall|j: int|
            0 <= j < enabled_all(c, ss).len() implies (#[trigger] enabled_all(c, ss)[j]).0
            != r by {
            if j < head.len() {
                assert(enabled_all(c, ss)[j] == head[j]);
            } else {
                assert(enabled_all(c, ss)[j] == rest[j - head.len()]);
            }
        }
    }
}

/// An undisabled trigger of one set stands among its enabled pairs.
proof fn lemma_enabled_included_set(
    c: CharacterV,
    src: TriggerSourceV,
    ts: Seq<(Seq<char>, TriggerV)>,
    ti: int,
)
    requires
        0 <= ti < ts.len(),
        !disables(c, TriggerRefV { source: src, id: ts[ti].0 }),
    ensures
        exists|j: int|
            0 <= j < enabled_pairs(c, src, ts).len() && #[trigger] enabled_pairs(c, src, ts)[j]
                == (TriggerRefV { source: src, id: ts[ti].0 }, ts[ti].1),
    decreases ts.len(),
{
    let head = TriggerRefV { source: src, id: ts[0].0 };
    let rest = enabled_pairs(c, src, ts.skip(1));
    if ti == 0 {
        assert(enabled_pairs(c, src, ts)[0] == (head, ts[0].1));
    } else {
        assert(ts.skip(1)[ti - 1] == ts[ti]);
        lemma_enabled_included_set(c, src, ts.skip(1), ti - 1);
        let j = choose|j: int|
            0 <= j < rest.len() && #[trigger] rest[j] == (
                TriggerRefV { source: src, id: ts[ti].0 },
                ts[ti].1,
            );
        if disables(c, head) {
            assert(enabled_pairs(c, src, ts)[j] == rest[j]);
        } else {
            assert(enabled_pairs(c, src, ts)[j + 1] == rest[j]);
        }
    }
}

/// Law: a trigger nobody disabled for a character is compiled for it: its
/// pair stands among the character's enabled triggers.
pub proof fn lemma_enabled_included(c: CharacterV, ss: Seq<TriggerSetV>, si: int, ti: int)
    requires
        0 <= si < ss.len(),
        0 <= ti < ss[si].triggers.len(),
        !disables(c, TriggerRefV { source: ss[si].source, id: ss[si].triggers[ti].0 }),
    ensures
        exists|j: int|
            0 <= j < enabled_all(c, ss).len() && #[trigger] enabled_all(c, ss)[j] == (
                TriggerRefV { source: ss[si].source, id: ss[si].triggers[ti].0 },
                ss[si].triggers[ti].1,
            ),
    decreases ss.len(),
{
    let head = enabled_pairs(c, ss[0].source, ss[0].triggers);
    let rest = enabled_all(c, ss.skip(1));
    if si == 0 {
        lemma_enabled_included_set(c, ss[0].source, ss[0].triggers, ti);
        let j = choose|j: int|
            0 <= j < head.len() && #[trigger] head[j] == (
                TriggerRefV { source: ss[0].source, id: ss[0].triggers[ti].0 },
                ss[0].triggers[ti].1,
            );
        assert(enabled_all(c, ss)[j] == head[j]);
    } else {
        assert(ss.skip(1)[si - 1] == ss[si]);
        lemma_enabled_included(c, ss.skip(1), si - 1, ti);
        let j = choose|j: int|
            0 <= j < rest.len() && #[trigger] rest[j] == (
                TriggerRefV { source: ss[si].source, id: ss[si].triggers[ti].0 },
                ss[si].triggers[ti].1,
            );
        assert(enabled_all(c, ss)[head.len() + j] == rest[j]);
    }
}

/// One character's slice of a snapshot.
#[derive(Debug)]
pub struct CompiledSet {
    pub character_id: String,
    pub triggers: Vec<CompiledTrigger>,
    pub patterns: Vec<String>,
}

impl CompiledSet {
    /// Internal consistency: every compiled trigger really compiles its
    /// own pattern, and the prefilter patterns are exactly those
    /// patterns, in order.
    pub open spec fn wf(self) -> bool {
        &&& forall|j: int| 0 <= j < self.triggers@.len() ==> (#[trigger] self.triggers@[j]).wf()
        &&& self.patterns@.len() == self.triggers@.len()
        &&& forall|j: int|
            0 <= j < self.triggers@.len() ==> (#[trigger] self.patterns@[j])@ == self.triggers@[
                j
            ]@.trigger.search_text
    }

    /// The slice holds, for character `c`, exactly the triggers `c` has
    /// enabled across `ss`, compiled, in order.
    pub open spec fn matches_plan(self, c: CharacterV, ss: Seq<TriggerSetV>) -> bool {
        let want = enabled_all(c, ss);
        &&& self.character_id@ == c.id
        &&& self.triggers@.len() == want.len()
        &&& forall|j: int|
            0 <= j < want.len() ==> (#[trigger] self.triggers@[j])@ == (CompiledTriggerV {
                character: c,
                trigger: want[j].1,
            })
        &&& strs_view(self.patterns@) == patterns_of(want)
    }
}

/// The reference–trigger pairs a character has enabled, in order.
fn gather_enabled(c: &Character, sets: &Vec<TriggerSet>) -> (r: Vec<(TriggerRef, Trigger)>)
    ensures
        pairs_view(r@) == enabled_all(c@, sets_view(sets@)),
{
    let ghost sv = sets_view(sets@);
    let mut r: Vec<(TriggerRef, Trigger)> = Vec::new();
    let ns = sets.len();
    proof {
        assert(sv.skip(0) =~= sv);
        assert(pairs_view(r@) =~= Seq::<(TriggerRefV, TriggerV)>::empty());
    }
    for s in 0..ns
        invariant
            ns == sets@.len(),
            sv == sets_view(sets@),
            enabled_all(c@, sv) == pairs_view(r@) + enabled_all(c@, sv.skip(s as int)),
    {
        proof {
            assert(sv[s as int] == sets@[s as int]@);
            assert(sv.skip(s as int)[0] == sv[s as int]);
            assert(sv.skip(s as int).skip(1) =~= sv.skip(s as int + 1));
        }
        let ghost tsv = sv[s as int].triggers;
        let set = &sets[s];
        let nt = set.triggers.len();
        proof {
            assert(tsv.skip(0) =~= tsv);
            assert(enabled_all(c@, sv.skip(s as int)) == enabled_pairs(c@, sv[s as int].source, tsv)
                + enabled_all(c@, sv.skip(s as int + 1)));
        }
        for t in 0..nt
            invariant
                ns == sets@.len(),
                s < ns,
                nt == sets@[s as int].triggers@.len(),
                sv == sets_view(sets@),
                sv[s as int] == sets@[s as int]@,
                tsv == sv[s as int].triggers,
                enabled_all(c@, sv) == pairs_view(r@) + enabled_pairs(
                    c@,
                    sv[s as int].source,
                    tsv.skip(t as int),
                ) + enabled_all(c@, sv.skip(s as int + 1)),
        {
            let set = &sets[s];
            proof {
                assert(tsv[t as int] == (sets@[s as int].triggers@[t as int].0@, sets@[
                    s as int
                ].triggers@[t as int].1@));
                assert(tsv.skip(t as int)[0] == tsv[t as int]);
                assert(tsv.skip(t as int).skip(1) =~= tsv.skip(t as int + 1));
            }
            let pair = &set.triggers[t];
            let tref = TriggerRef {
                source: set.source.clone(),
                id: pair.0.clone(),
            };
            let ghost refv = TriggerRefV { source: sv[s as int].source, id: tsv[t as int].0 };
            proof {
                assert(tref@ =~= refv);
            }
            if !c.is_disabled(&tref) {
                let ghost prev = pairs_view(r@);
                r.push((tref, pair.1.clone()));
                proof {
                    assert(pairs_view(r@) =~= prev + seq![(refv, tsv[t as int].1)]);
                    assert(prev + (seq![(refv, tsv[t as int].1)] + (enabled_pairs(
                        c@,
                        sv[s as int].source,
                        tsv.skip(t as int + 1),
                    ) + enabled_all(c@, sv.skip(s as int + 1)))) =~= (prev + seq![
                        (refv, tsv[t as int].1),
                    ]) + (enabled_pairs(c@, sv[s as int].source, tsv.skip(t as int + 1))
                        + enabled_all(c@, sv.skip(s as int + 1))));
                }
            }
        }
    }
    proof {
        assert(sv.skip(ns as int) =~= Seq::<TriggerSetV>::empty());
        assert(pairs_view(r@) + Seq::<(TriggerRefV, TriggerV)>::empty() =~= pairs_view(r@));
    }
    r
}

/// Compiles everything one character has enabled. Fails exactly when some
/// enabled pattern does not compile, naming that trigger.
pub fn compile_for_character(c: &Character, sets: &Vec<TriggerSet>) -> (r: Result<
    CompiledSet,
    TriggerError,
>)
    ensures
        r is Ok <==> all_valid(enabled_all(c@, sets_view(sets@))),
        r is Ok ==> r.unwrap().wf(),
        r is Ok ==> r.unwrap().matches_plan(c@, sets_view(sets@)),
        r matches Err(TriggerError::InvalidRegex { source, id, error }) ==> exists|j: int|
            0 <= j < enabled_all(c@, sets_view(sets@)).len() && (#[trigger] enabled_all(
                c@,
                sets_view(sets@),
            )[j]).0 == (TriggerRefV { source: source@, id: id@ }) && !re_valid(enabled_all(
                c@,
                sets_view(sets@),
            )[j].1.search_text),
        r is Err ==> r matches Err(TriggerError::InvalidRegex { .. }),
{
    let ghost want = enabled_all(c@, sets_view(sets@));
    let pairs = gather_enabled(c, sets);
    let mut triggers: Vec<CompiledTrigger> = Vec::new();
    let mut patterns: Vec<String> = Vec::new();
    let n = pairs.len();
    for i in 0..n
        invariant
            n == pairs@.len(),
            want == pairs_view(pairs@),
            want == enabled_all(c@, sets_view(sets@)),
            triggers@.len() == i,
            patterns@.len() == i,
            forall|j: int|
                0 <= j < i ==> (#[trigger] triggers@[j])@ == (CompiledTriggerV {
                    character: c@,
                    trigger: want[j].1,
                }),
            forall|j: int| 0 <= j < i ==> (#[trigger] triggers@[j]).wf(),
            forall|j: int|
                0 <= j < i ==> (#[trigger] patterns@[j])@ == triggers@[j]@.trigger.search_text,
            forall|j: int| 0 <= j < i ==> re_valid((#[trigger] want[j]).1.search_text),
    {
        proof {
            assert(want[i as int] == (pairs@[i as int].0@, pairs@[i as int].1@));
        }
        let pair = &pairs[i];
        match CompiledTrigger::new(c, &pair.1) {
            Ok(ct) => {
                triggers.push(ct);
                patterns.push(pair.1.search_text.clone());
            },
            Err(e) => {
                return Err(
                    TriggerError::InvalidRegex {
                        source: pair.0.source.clone(),
                        id: pair.0.id.clone(),
                        error: e,
                    },
                );
            },
        }
    }
    let r = CompiledSet { character_id: c.id.clone(), triggers, patterns };
    proof {
        assert(strs_view(r.patterns@) =~= patterns_of(want)) by {
            assert forall|j: int| 0 <= j < want.len() implies strs_view(r.patterns@)[j]
                == patterns_of(want)[j] by {
                assert(strs_view(r.patterns@)[j] == r.patterns@[j]@);
                assert(patterns_of(want)[j] == want[j].1.search_text);
            }
        }
    }
    Ok(r)
}

/// One immutable configuration generation: the characters, and per
/// character its compiled triggers and prefilter patterns.
#[derive(Debug)]
pub struct Snapshot {
    pub characters: Vec<Character>,
    pub sets: Vec<CompiledSet>,
}

/// Index of the first character with the given id; the list's length when
/// none has it.
pub open spec fn char_pos(cs: Seq<Character>, id: Seq<char>) -> nat
    decreases cs.len(),
{
    if cs.len() == 0 {
        0
    } else if cs[0]@.id == id {
        0
    } else {
        1 + char_pos(cs.skip(1), id)
    }
}

pub proof fn lemma_char_pos(cs: Seq<Character>, id: Seq<char>)
    ensures
        char_pos(cs, id) <= cs.len(),
        char_pos(cs, id) < cs.len() ==> cs[char_pos(cs, id) as int]@.id == id,
        forall|i: int| 0 <= i < char_pos(cs, id) ==> (#[trigger] cs[i])@.id != id,
    decreases cs.len(),
{
    if cs.len() > 0 && cs[0]@.id != id {
        let t = cs.skip(1);
        lemma_char_pos(t, id);
        assert forall|i: int| 0 <= i < char_pos(cs, id) implies (#[trigger] cs[i])@.id != id by {
            if i > 0 {
                assert(t[i - 1] == cs[i]);
            }
        }
    }
}

impl Snapshot {
    /// Internal consistency: one compiled slice per character, in the
    /// same order, each consistent in itself.
    pub open spec fn wf(self) -> bool {
        &&& self.sets@.len() == self.characters@.len()
        &&& forall|i: int| 0 <= i < self.sets@.len() ==> (#[trigger] self.sets@[i]).wf()
        &&& forall|i: int|
            0 <= i < self.sets@.len() ==> (#[trigger] self.sets@[i]).character_id@
                == self.characters@[i]@.id
    }

    /// The snapshot is exactly what compiling `cs` against `ss` gives.
    pub open spec fn matches_config(self, cs: Seq<CharacterV>, ss: Seq<TriggerSetV>) -> bool {
        &&& chars_view(self.characters@) == cs
        &&& self.sets@.len() == cs.len()
        &&& forall|i: int|
            0 <= i < cs.len() ==> (#[trigger] self.sets@[i]).matches_plan(cs[i], ss)
    }

    /// An empty snapshot: no characters, no triggers.
    pub fn empty() -> (r: Snapshot)
        ensures
            r.wf(),
            r.characters@.len() == 0,
            r.sets@.len() == 0,
    {
        Snapshot { characters: Vec::new(), sets: Vec::new() }
    }

    /// Builds the snapshot for a configuration. Fails exactly when some
    /// character's enabled triggers include a pattern that does not
    /// compile, naming that trigger.
    pub fn build(characters: &Vec<Character>, sets: &Vec<TriggerSet>) -> (r: Result<
        Snapshot,
        TriggerError,
    >)
        ensures
            r is Ok <==> (forall|ci: int|
                0 <= ci < characters@.len() ==> all_valid(
                    enabled_all((#[trigger] characters@[ci])@, sets_view(sets@)),
                )),
            r is Ok ==> r.unwrap().wf(),
            r is Ok ==> r.unwrap().matches_config(chars_view(characters@), sets_view(sets@)),
            r is Err ==> r matches Err(TriggerError::InvalidRegex { .. }),
    {
        let mut out_chars: Vec<Character> = Vec::new();
        let mut out_sets: Vec<CompiledSet> = Vec::new();
        let n = characters.len();
        for i in 0..n
            invariant
                n == characters@.len(),
                out_chars@.len() == i,
                out_sets@.len() == i,
                forall|k: int| 0 <= k < i ==> (#[trigger] out_chars@[k])@ == characters@[k]@,
                forall|k: int| 0 <= k < i ==> (#[trigger] out_sets@[k]).wf(),
                forall|k: int|
                    0 <= k < i ==> (#[trigger] out_sets@[k]).matches_plan(
                        characters@[k]@,
                        sets_view(sets@),
                    ),
                forall|k: int|
                    0 <= k < i ==> all_valid(
                        enabled_all((#[trigger] characters@[k])@, sets_view(sets@)),
                    ),
        {
            match compile_for_character(&characters[i], sets) {
                Ok(cset) => {
                    out_chars.push(characters[i].clone());
                    out_sets.push(cset);
                },
                Err(e) => {
                    return Err(e);
                },
            }
        }
        let r = Snapshot { characters: out_chars, sets: out_sets };
        proof {
            assert(chars_view(r.characters@) =~= chars_view(characters@));
            assert forall|i: int| 0 <= i < chars_view(characters@).len() implies (
            #[trigger] r.sets@[i]).matches_plan(
                chars_view(characters@)[i],
                sets_view(sets@),
            ) by {
                assert(chars_view(characters@)[i] == characters@[i]@);
            }
        }
        Ok(r)
    }

    /// Finds the character a log record belongs to.
    pub fn find_character(&self, id: &str) -> (r: Option<usize>)
        ensures
            r is Some <==> char_pos(self.characters@, id@) < self.characters@.len(),
            r is Some ==> r.unwrap() == char_pos(self.characters@, id@),
    {
        let n = self.characters.len();
        for i in 0..n
            invariant
                n == self.characters@.len(),
                forall|k: int| 0 <= k < i ==> (#[trigger] self.characters@[k])@.id != id@,
        {
            if str_eq(self.characters[i].id.as_str(), id) {
                proof {
                    lemma_char_pos(self.characters@, id@);
                    let cp = char_pos(self.characters@, id@) as int;
                    assert(cp == i) by {
                        if cp < i {
                            assert(self.characters@[cp]@.id != id@);
                        } else if cp > i {
                            assert(self.characters@[i as int]@.id != id@);
                        }
                    }
                }
                return Some(i);
            }
        }
        proof {
            lemma_char_pos(self.characters@, id@);
            let cp = char_pos(self.characters@, id@) as int;
            assert(cp == n) by {
                if cp < n {
                    assert(self.characters@[cp]@.id == id@);
                    assert(self.characters@[cp]@.id != id@);
                }
            }
        }
        None
    }
}

} // verus!
