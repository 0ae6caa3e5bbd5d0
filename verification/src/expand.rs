//! Expansion of action-template texts.
//!
//! A template is ordinary text in which `$` starts a capture-group
//! reference: `$7` or `$name`, with `${7}` and `${name}` as the braced
//! forms, and `$$` standing for a literal dollar. An unbraced reference is
//! the longest run of word characters after the dollar; a braced reference
//! is everything up to the next closing brace, whatever it holds. A
//! reference made of digits names a group by index, any other reference
//! names a group by its name; a reference to a group that does not exist,
//! or did not take part in the match, expands to nothing. A `$` that
//! starts no reference — at the end, before an ordinary character, or
//! before a brace that never closes — stays as it is.

use vstd::prelude::*;

use crate::parser::{first_pos, lemma_first_pos};
use crate::stamp::{all_digits, dec_val, lemma_dec_val_bound};

verus! {

/// Characters a capture-group reference may be made of.
pub open spec fn word_char(c: char) -> bool {
    ('0' <= c && c <= '9') || ('a' <= c && c <= 'z') || ('A' <= c && c <= 'Z') || c == '_'
}

/// Length of the longest prefix of `s` made of word characters.
pub open spec fn word_run_len(s: Seq<char>) -> nat
    decreases s.len(),
{
    if s.len() == 0 {
        0
    } else if !word_char(s[0]) {
        0
    } else {
        1 + word_run_len(s.skip(1))
    }
}

pub proof fn lemma_word_run(s: Seq<char>)
    ensures
        word_run_len(s) <= s.len(),
        forall|i: int| 0 <= i < word_run_len(s) ==> word_char(#[trigger] s[i]),
        word_run_len(s) < s.len() ==> !word_char(s[word_run_len(s) as int]),
    decreases s.len(),
{
    if s.len() > 0 && word_char(s[0]) {
        let t = s.skip(1);
        lemma_word_run(t);
        assert forall|i: int| 0 <= i < word_run_len(s) implies word_char(#[trigger] s[i]) by {
            if i > 0 {
                assert(t[i - 1] == s[i]);
            }
        }
        if word_run_len(s) < s.len() {
            assert(t[word_run_len(s) - 1] == s[word_run_len(s) as int]);
        }
    }
}

/// The views of a vector of optional strings, in order.
pub open spec fn opt_views(v: Seq<Option<String>>) -> Seq<Option<Seq<char>>> {
    v.map_values(
        |o: Option<String>|
            match o {
                Option::Some(s) => Option::Some(s@),
                Option::None => Option::None,
            },
    )
}

/// Text of capture group `k`: empty when the group does not exist or did
/// not take part in the match.
pub open spec fn group_text(caps: Seq<Option<Seq<char>>>, k: int) -> Seq<char> {
    if 0 <= k < caps.len() && caps[k] is Some {
        caps[k].unwrap()
    } else {
        Seq::empty()
    }
}

/// Index of the first group carrying name `nm`; `names.len()` when none
/// does.
pub open spec fn name_pos(names: Seq<Option<Seq<char>>>, nm: Seq<char>) -> nat
    decreases names.len(),
{
    if names.len() == 0 {
        0
    } else if names[0] == Option::Some(nm) {
        0
    } else {
        1 + name_pos(names.skip(1), nm)
    }
}

pub proof fn lemma_name_pos(names: Seq<Option<Seq<char>>>, nm: Seq<char>)
    ensures
        name_pos(names, nm) <= names.len(),
        name_pos(names, nm) < names.len() ==> names[name_pos(names, nm) as int] == Option::Some(
            nm,
        ),
        forall|i: int| 0 <= i < name_pos(names, nm) ==> names[i] != Option::Some(nm),
    decreases names.len(),
{
    if names.len() > 0 && names[0] != Option::Some(nm) {
        let t = names.skip(1);
        lemma_name_pos(t, nm);
        assert forall|i: int| 0 <= i < name_pos(names, nm) implies names[i] != Option::Some(
            nm,
        ) by {
            if i > 0 {
                assert(t[i - 1] == names[i]);
            }
        }
    }
}

/// What a capture-group reference stands for: a group by index when the
/// reference is digits, else the group carrying the reference as its name.
pub open spec fn resolve_spec(
    caps: Seq<Option<Seq<char>>>,
    names: Seq<Option<Seq<char>>>,
    nm: Seq<char>,
) -> Seq<char> {
    if nm.len() > 0 && all_digits(nm) {
        group_text(caps, dec_val(nm))
    } else if name_pos(names, nm) < names.len() {
        group_text(caps, name_pos(names, nm) as int)
    } else {
        Seq::empty()
    }
}

/// The expansion of template `t` over capture groups `caps` with group
/// names `names`.
pub open spec fn expand_spec(
    t: Seq<char>,
    caps: Seq<Option<Seq<char>>>,
    names: Seq<Option<Seq<char>>>,
) -> Seq<char>
    decreases t.len(),
{
    if t.len() == 0 {
        Seq::empty()
    } else if t[0] != '$' {
        seq![t[0]] + expand_spec(t.skip(1), caps, names)
    } else if t.len() >= 2 && t[1] == '$' {
        seq!['$'] + expand_spec(t.skip(2), caps, names)
    } else if t.len() >= 2 && t[1] == '{' {
        let w = first_pos(t.skip(2), '}') as int;
        if w < t.len() - 2 {
            resolve_spec(caps, names, t.subrange(2, 2 + w)) + expand_spec(
                t.skip(3 + w),
                caps,
                names,
            )
        } else {
            seq!['$'] + expand_spec(t.skip(1), caps, names)
        }
    } else {
        let w = word_run_len(t.skip(1)) as int;
        if w > 0 && 1 + w <= t.len() {
            resolve_spec(caps, names, t.subrange(1, 1 + w)) + expand_spec(
                t.skip(1 + w),
                caps,
                names,
            )
        } else {
            seq!['$'] + expand_spec(t.skip(1), caps, names)
        }
    }
}

/// The character of one decimal digit.
pub open spec fn digit_char(d: int) -> char {
    if d == 0 {
        '0'
    } else if d == 1 {
        '1'
    } else if d == 2 {
        '2'
    } else if d == 3 {
        '3'
    } else if d == 4 {
        '4'
    } else if d == 5 {
        '5'
    } else if d == 6 {
        '6'
    } else if d == 7 {
        '7'
    } else if d == 8 {
        '8'
    } else {
        '9'
    }
}

/// The decimal digits of `n`, most significant first.
pub open spec fn dec_digits(n: int) -> Seq<char>
    decreases n,
{
    if n < 10 {
        seq![digit_char(n)]
    } else {
        dec_digits(n / 10) + seq![digit_char(n % 10)]
    }
}

pub proof fn lemma_dec_digits(n: int)
    requires
        0 <= n,
    ensures
        dec_digits(n).len() >= 1,
        all_digits(dec_digits(n)),
        dec_val(dec_digits(n)) == n,
    decreases n,
{
    if n < 10 {
        let s = seq![digit_char(n)];
        assert(s.drop_last() =~= Seq::<char>::empty());
        assert(dec_val(s) == 10 * dec_val(Seq::<char>::empty()) + (s.last() as int - '0' as int));
    } else {
        lemma_dec_digits(n / 10);
        let a = dec_digits(n / 10);
        let s = a + seq![digit_char(n % 10)];
        assert(s.drop_last() =~= a);
        assert(s.last() == digit_char(n % 10));
        assert(dec_val(s) == 10 * dec_val(a) + (digit_char(n % 10) as int - '0' as int));
        assert forall|i: int| 0 <= i < s.len() implies '0' <= #[trigger] s[i] <= '9' by {
            if i < a.len() {
                assert(s[i] == a[i]);
            }
        }
    }
}

/// A string of word characters is one whole reference.
pub proof fn lemma_word_run_full(s: Seq<char>)
    requires
        forall|i: int| 0 <= i < s.len() ==> word_char(#[trigger] s[i]),
    ensures
        word_run_len(s) == s.len(),
    decreases s.len(),
{
    if s.len() > 0 {
        let t = s.skip(1);
        assert forall|i: int| 0 <= i < t.len() implies word_char(#[trigger] t[i]) by {
            assert(t[i] == s[i + 1]);
        }
        lemma_word_run_full(t);
    }
}

/// Law: a template that is exactly a dollar sign followed by the decimal
/// digits of `k` expands to exactly the text of capture group `k`.
pub proof fn lemma_group_reference_expands(
    k: int,
    caps: Seq<Option<Seq<char>>>,
    names: Seq<Option<Seq<char>>>,
)
    requires
        0 <= k,
    ensures
        expand_spec(seq!['$'] + dec_digits(k), caps, names) == group_text(caps, k),
{
    lemma_dec_digits(k);
    let ds = dec_digits(k);
    let t = seq!['$'] + ds;
    assert(t[0] == '$');
    assert(t.len() == 1 + ds.len());
    assert(t.skip(1) =~= ds);
    assert(t[1] == ds[0]);
    assert('0' <= ds[0] <= '9');
    assert(t[1] != '$' && t[1] != '{');
    assert forall|i: int| 0 <= i < ds.len() implies word_char(#[trigger] ds[i]) by {}
    lemma_word_run_full(ds);
    let w = word_run_len(t.skip(1)) as int;
    assert(w == ds.len());
    assert(w > 0 && 1 + w <= t.len());
    assert(t.subrange(1, 1 + w) =~= ds);
    assert(t.skip(1 + w) =~= Seq::<char>::empty());
    assert(expand_spec(Seq::<char>::empty(), caps, names) == Seq::<char>::empty());
    assert(resolve_spec(caps, names, ds) == group_text(caps, k));
    assert(group_text(caps, k) + Seq::<char>::empty() =~= group_text(caps, k));
}

/// Whether two string slices hold the same characters.
pub(crate) fn str_eq(a: &str, b: &str) -> (r: bool)
    ensures
        r == (a@ == b@),
{
    let n = a.unicode_len();
    if n != b.unicode_len() {
        return false;
    }
    let mut i: usize = 0;
    while i < n
        invariant
            i <= n,
            n == a@.len() == b@.len(),
            forall|k: int| 0 <= k < i ==> a@[k] == b@[k],
        decreases n - i,
    {
        if a.get_char(i) != b.get_char(i) {
            return false;
        }
        i += 1;
    }
    proof {
        assert(a@ =~= b@);
    }
    true
}

/// Whether every character of `s` is a decimal digit.
fn is_digits(s: &str) -> (r: bool)
    ensures
        r == all_digits(s@),
{
    let n = s.unicode_len();
    let mut i: usize = 0;
    while i < n
        invariant
            i <= n,
            n == s@.len(),
            forall|k: int| 0 <= k < i ==> '0' <= #[trigger] s@[k] <= '9',
        decreases n - i,
    {
        let c = s.get_char(i);
        if c < '0' || c > '9' {
            return false;
        }
        i += 1;
    }
    true
}

/// Whether `c` may be part of a capture-group reference.
fn is_word_char(c: char) -> (r: bool)
    ensures
        r == word_char(c),
{
    ('0' <= c && c <= '9') || ('a' <= c && c <= 'z') || ('A' <= c && c <= 'Z') || c == '_'
}

/// Length of the longest run of word characters in `t` starting at `from`.
fn word_run_end(t: &str, from: usize) -> (w: usize)
    requires
        from <= t@.len(),
    ensures
        w as nat == word_run_len(t@.skip(from as int)),
        from + w <= t@.len(),
{
    let n = t.unicode_len();
    let mut i: usize = from;
    while i < n && is_word_char(t.get_char(i))
        invariant
            from <= i <= n,
            n == t@.len(),
            forall|k: int| from <= k < i ==> word_char(#[trigger] t@[k]),
        decreases n - i,
    {
        i += 1;
    }
    proof {
        let s = t@.skip(from as int);
        lemma_word_run(s);
        let w = word_run_len(s) as int;
        assert forall|k: int| 0 <= k < i - from implies word_char(#[trigger] s[k]) by {
            assert(s[k] == t@[k + from]);
        }
        if i < n {
            assert(s[i - from] == t@[i as int]);
            assert(!word_char(s[i - from]));
        }
        assert(w == i - from) by {
            if w < i - from {
                assert(word_char(s[w]));
                assert(!word_char(s[w]));
            } else if w > i - from {
                assert(i < n);
                assert(word_char(s[i - from]));
            }
        }
    }
    i - from
}

/// Offset of the first closing brace in `t` at or after `from`; the
/// remaining length when there is none.
fn close_run(t: &str, from: usize) -> (w: usize)
    requires
        from <= t@.len(),
    ensures
        w as nat == first_pos(t@.skip(from as int), '}'),
        from + w <= t@.len(),
{
    let n = t.unicode_len();
    let mut j: usize = from;
    while j < n && t.get_char(j) != '}'
        invariant
            from <= j <= n,
            n == t@.len(),
            forall|k: int| from <= k < j ==> t@[k] != '}',
        decreases n - j,
    {
        j += 1;
    }
    proof {
        let s = t@.skip(from as int);
        lemma_first_pos(s, '}');
        let fp = first_pos(s, '}') as int;
        assert forall|k: int| 0 <= k < j - from implies #[trigger] s[k] != '}' by {
            assert(s[k] == t@[k + from]);
        }
        if j < n {
            assert(s[j - from] == t@[j as int]);
            assert(fp == j - from) by {
                if fp < j - from {
                    assert(s[fp] != '}');
                } else if fp > j - from {
                    assert(s[j - from] != '}');
                }
            }
        } else {
            assert(fp == j - from) by {
                if fp < j - from {
                    assert(s[fp] == '}');
                    assert(s[fp] != '}');
                }
            }
        }
    }
    j - from
}

/// The text a reference stands for, drawn from the capture groups.
fn resolve_ref<'a>(
    caps: &'a Vec<Option<String>>,
    names: &Vec<Option<String>>,
    nm: &str,
) -> (r: &'a str)
    ensures
        r@ == resolve_spec(opt_views(caps@), opt_views(names@), nm@),
{
    proof {
        reveal_strlit("");
        assert(""@ =~= Seq::<char>::empty());
        assert(opt_views(caps@).len() == caps@.len());
        assert(opt_views(names@).len() == names@.len());
    }
    let cap_count = caps.len();
    let n = nm.unicode_len();
    if n > 0 && is_digits(nm) {
        let mut k: usize = 0;
        let mut over = false;
        let mut i: usize = 0;
        while i < n
            invariant
                i <= n,
                n == nm@.len(),
                all_digits(nm@),
                cap_count == caps@.len(),
                !over ==> k as int == dec_val(nm@.take(i as int)) && k <= cap_count,
                over ==> dec_val(nm@.take(i as int)) > cap_count,
            decreases n - i,
        {
            let c = nm.get_char(i);
            let d: usize = ((c as u32) - ('0' as u32)) as usize;
            proof {
                assert(nm@.take(i as int + 1).drop_last() =~= nm@.take(i as int));
                assert(nm@.take(i as int + 1).last() == nm@[i as int]);
                assert(dec_val(nm@.take(i as int + 1)) == 10 * dec_val(nm@.take(i as int))
                    + d as int);
                assert(all_digits(nm@.take(i as int)));
                lemma_dec_val_bound(nm@.take(i as int));
            }
            if !over {
                let step = match k.checked_mul(10) {
                    Some(x) => x.checked_add(d),
                    None => None,
                };
                match step {
                    Some(y) => {
                        if y > cap_count {
                            over = true;
                        } else {
                            k = y;
                        }
                    },
                    None => {
                        over = true;
                    },
                }
            }
            i += 1;
        }
        proof {
            assert(nm@.take(n as int) =~= nm@);
        }
        if over {
            return "";
        }
        if k == cap_count {
            return "";
        }
        proof {
            assert(opt_views(caps@)[k as int] == (match caps@[k as int] {
                Option::Some(s) => Option::Some(s@),
                Option::None => Option::<Seq<char>>::None,
            }));
        }
        match &caps[k] {
            Some(s) => s.as_str(),
            None => "",
        }
    } else {
        let m = names.len();
        let mut i: usize = 0;
        while i < m
            invariant
                i <= m,
                m == names@.len(),
                cap_count == caps@.len(),
                nm@.len() == 0 || !all_digits(nm@),
                forall|j: int| 0 <= j < i ==> opt_views(names@)[j] != Option::Some(nm@),
            decreases m - i,
        {
            let hit = match &names[i] {
                Some(s) => str_eq(s.as_str(), nm),
                None => false,
            };
            if hit {
                proof {
                    reveal_strlit("");
                    assert(""@ =~= Seq::<char>::empty());
                    assert(opt_views(caps@).len() == caps@.len());
                    lemma_name_pos(opt_views(names@), nm@);
                    let np = name_pos(opt_views(names@), nm@) as int;
                    assert(opt_views(names@)[i as int] == Option::Some(nm@));
                    assert(np == i) by {
                        if np < i {
                            assert(opt_views(names@)[np] != Option::Some(nm@));
                            assert(opt_views(names@)[np] == Option::Some(nm@));
                        } else if np > i {
                            assert(opt_views(names@)[i as int] != Option::Some(nm@));
                        }
                    }
                }
                if i < cap_count {
                    proof {
                        assert(opt_views(caps@)[i as int] == (match caps@[i as int] {
                            Option::Some(s) => Option::Some(s@),
                            Option::None => Option::<Seq<char>>::None,
                        }));
                    }
                    return match &caps[i] {
                        Some(s) => s.as_str(),
                        None => "",
                    };
                }
                return "";
            }
            proof {
                assert(opt_views(names@)[i as int] != Option::Some(nm@));
            }
            i += 1;
        }
        proof {
            lemma_name_pos(opt_views(names@), nm@);
            let np = name_pos(opt_views(names@), nm@) as int;
            assert(np == m) by {
                if np < m {
                    assert(opt_views(names@)[np] == Option::Some(nm@));
                    assert(opt_views(names@)[np] != Option::Some(nm@));
                }
            }
        }
        ""
    }
}

/// Expands a template over the capture groups of one match, with the
/// pattern's group names for named references.
pub fn expand_template(t: &str, caps: &Vec<Option<String>>, names: &Vec<Option<String>>) -> (r:
    String)
    ensures
        r@ == expand_spec(t@, opt_views(caps@), opt_views(names@)),
{
    let ghost cv = opt_views(caps@);
    let ghost nv = opt_views(names@);
    let n = t.unicode_len();
    let mut out = String::new();
    let mut i: usize = 0;
    proof {
        assert(t@.skip(0) =~= t@);
    }
    while i < n
        invariant
            i <= n,
            n == t@.len(),
            cv == opt_views(caps@),
            nv == opt_views(names@),
            expand_spec(t@, cv, nv) == out@ + expand_spec(t@.skip(i as int), cv, nv),
        decreases n - i,
    {
        let ghost rem = t@.skip(i as int);
        let ghost prev = out@;
        proof {
            reveal_strlit("$");
            assert(rem[0] == t@[i as int]);
            if i + 1 < n {
                assert(rem[1] == t@[i as int + 1]);
            }
        }
        let c = t.get_char(i);
        if c != '$' {
            let piece = t.substring_char(i, i + 1);
            out.append(piece);
            proof {
                assert(piece@ =~= seq![rem[0]]);
                assert(rem.skip(1) =~= t@.skip(i as int + 1));
                assert(prev + (piece@ + expand_spec(rem.skip(1), cv, nv)) =~= (prev + piece@)
                    + expand_spec(rem.skip(1), cv, nv));
            }
            i += 1;
        } else if i + 1 < n && t.get_char(i + 1) == '$' {
            out.append("$");
            proof {
                assert(("$")@ =~= seq!['$']);
                assert(rem.skip(2) =~= t@.skip(i as int + 2));
                assert(prev + (seq!['$'] + expand_spec(rem.skip(2), cv, nv)) =~= (prev + seq![
                    '$',
                ]) + expand_spec(rem.skip(2), cv, nv));
            }
            i += 2;
        } else if i + 1 < n && t.get_char(i + 1) == '{' {
            proof {
                assert(rem.skip(2) =~= t@.skip(i as int + 2));
            }
            let w = close_run(t, i + 2);
            if i + 2 + w < n {
                let nm = t.substring_char(i + 2, i + 2 + w);
                let piece = resolve_ref(caps, names, nm);
                out.append(piece);
                proof {
                    assert(nm@ =~= rem.subrange(2, 2 + w as int));
                    assert(rem.skip(3 + w as int) =~= t@.skip(i as int + 3 + w as int));
                    assert(prev + (piece@ + expand_spec(rem.skip(3 + w as int), cv, nv)) =~= (prev
                        + piece@) + expand_spec(rem.skip(3 + w as int), cv, nv));
                }
                i += 3 + w;
            } else {
                out.append("$");
                proof {
                    assert(("$")@ =~= seq!['$']);
                    assert(rem.skip(1) =~= t@.skip(i as int + 1));
                    assert(prev + (seq!['$'] + expand_spec(rem.skip(1), cv, nv)) =~= (prev + seq![
                        '$',
                    ]) + expand_spec(rem.skip(1), cv, nv));
                }
                i += 1;
            }
        } else {
            proof {
                assert(rem.skip(1) =~= t@.skip(i as int + 1));
            }
            let w = word_run_end(t, i + 1);
            if w > 0 {
                let nm = t.substring_char(i + 1, i + 1 + w);
                let piece = resolve_ref(caps, names, nm);
                out.append(piece);
                proof {
                    assert(nm@ =~= rem.subrange(1, 1 + w as int));
                    assert(rem.skip(1 + w as int) =~= t@.skip(i as int + 1 + w as int));
                    assert(prev + (piece@ + expand_spec(rem.skip(1 + w as int), cv, nv)) =~= (prev
                        + piece@) + expand_spec(rem.skip(1 + w as int), cv, nv));
                }
                i += 1 + w;
            } else {
                out.append("$");
                proof {
                    assert(("$")@ =~= seq!['$']);
                    assert(rem.skip(1) =~= t@.skip(i as int + 1));
                    assert(prev + (seq!['$'] + expand_spec(rem.skip(1), cv, nv)) =~= (prev + seq![
                        '$',
                    ]) + expand_spec(rem.skip(1), cv, nv));
                }
                i += 1;
            }
        }
    }
    proof {
        assert(t@.skip(n as int) =~= Seq::<char>::empty());
        assert(expand_spec(Seq::<char>::empty(), cv, nv) == Seq::<char>::empty());
        assert(out@ + Seq::<char>::empty() =~= out@);
    }
    out
}

} // verus!
