//! Trusted boundary to the regex crate.
//!
//! Trigger patterns are arbitrary user-written regular expressions, so the
//! engine calls the regex crate to compile and run them. What a pattern
//! matches is far too large to write down, so the results are given names:
//! uninterpreted functions of the pattern and the haystack alone. Everything
//! the engine proves about matching is relative to those names.

use vstd::prelude::*;

verus! {

/// The views of a list of strings, in order.
pub open spec fn strs_view(v: Seq<String>) -> Seq<Seq<char>> {
    v.map_values(|s: String| s@)
}

#[verifier::external_type_specification]
#[verifier::external_body]
pub struct ExRegex(regex::Regex);

#[verifier::external_type_specification]
#[verifier::external_body]
pub struct ExRegexSet(regex::RegexSet);

/// Whether `regex::Regex::new` accepts `pattern` under its default
/// configuration. A function of the pattern alone.
pub uninterp spec fn re_valid(pattern: Seq<char>) -> bool;

/// The pattern a compiled `regex::Regex` was built from, as
/// `Regex::as_str` returns it.
pub uninterp spec fn re_pattern(re: regex::Regex) -> Seq<char>;

/// Whether `pattern` matches somewhere in `text`: the result of
/// `regex::Regex::is_match`, a function of pattern and haystack alone.
pub uninterp spec fn re_match(pattern: Seq<char>, text: Seq<char>) -> bool;

/// The capture groups of the first match of `pattern` in `text`, as
/// `regex::Regex::captures` reports them: one entry per group in pattern
/// order, the whole match first, `None` for groups that did not
/// participate.
pub uninterp spec fn re_caps(pattern: Seq<char>, text: Seq<char>) -> Seq<Option<Seq<char>>>;

/// The names of the capture groups of `pattern`, as
/// `regex::Regex::capture_names` reports them: one entry per group in
/// pattern order, `None` for unnamed groups.
pub uninterp spec fn re_names(pattern: Seq<char>) -> Seq<Option<Seq<char>>>;

/// The member patterns of a `regex::RegexSet`, in the order given when the
/// set was built.
pub uninterp spec fn set_patterns(rs: regex::RegexSet) -> Seq<Seq<char>>;

/// Whether `regex::RegexSet::new` accepts this list of patterns under its
/// default configuration. A function of the pattern list alone; it fails
/// when a member pattern is invalid, and can also fail when the combined
/// set exceeds the default size limit.
pub uninterp spec fn set_builds(patterns: Seq<Seq<char>>) -> bool;

/// Relies on `regex::Regex::new`: it returns `Ok` exactly when the pattern
/// compiles under the default configuration, and the compiled regex keeps
/// its pattern. An `Err` is rendered to text.
#[verifier::external_body]
pub fn regex_new(pattern: &str) -> (r: Result<regex::Regex, String>)
    ensures
        r is Ok <==> re_valid(pattern@),
        r is Ok ==> re_pattern(r.unwrap()) == pattern@,
{
    match regex::Regex::new(pattern) {
        Ok(re) => Ok(re),
        Err(e) => Err(format!("{e}")),
    }
}

/// Relies on `regex::Regex::captures`: a `Some` result exactly when the
/// regex matches the haystack, carrying every capture group with the whole
/// match first. The group texts are converted to owned strings.
#[verifier::external_body]
pub fn regex_captures(re: &regex::Regex, text: &str) -> (r: Option<Vec<Option<String>>>)
    ensures
        r is Some <==> re_match(re_pattern(*re), text@),
        r is Some ==> {
            let caps = re_caps(re_pattern(*re), text@);
            &&& r.unwrap()@.len() == caps.len()
            &&& caps.len() >= 1
            &&& caps[0] is Some
            &&& forall|i: int|
                0 <= i < caps.len() ==> ((#[trigger] r.unwrap()@[i]) is Some <==> caps[i] is Some)
            &&& forall|i: int|
                0 <= i < caps.len() && caps[i] is Some ==> (#[trigger] r.unwrap()@[i]).unwrap()@
                    == caps[i].unwrap()
        },
{
    re.captures(text).map(|c| c.iter().map(|g| g.map(|m| m.as_str().to_string())).collect())
}

/// Relies on `regex::Regex::capture_names`: one entry per capture group in
/// pattern order, the implicit whole-match group first and always unnamed.
#[verifier::external_body]
pub fn regex_capture_names(re: &regex::Regex) -> (r: Vec<Option<String>>)
    ensures
        r@.len() == re_names(re_pattern(*re)).len(),
        r@.len() >= 1,
        r@.len() >= 1 ==> re_names(re_pattern(*re))[0] is None,
        forall|i: int|
            0 <= i < r@.len() ==> ((#[trigger] r@[i]) is Some <==> re_names(re_pattern(*re))[i] is Some),
        forall|i: int|
            0 <= i < r@.len() && re_names(re_pattern(*re))[i] is Some ==> (#[trigger] r@[i]).unwrap()@
                == re_names(re_pattern(*re))[i].unwrap(),
{
    re.capture_names().map(|n| n.map(|s| s.to_string())).collect()
}

/// Relies on `regex::RegexSet::new`: it returns `Ok` exactly when the
/// pattern list builds under the default configuration — which is what
/// `set_builds` names — it fails when some member pattern is invalid, and
/// on success the set holds exactly the given patterns in order. An `Err`
/// is rendered to text.
#[verifier::external_body]
pub fn regex_set_new(patterns: &Vec<String>) -> (r: Result<regex::RegexSet, String>)
    ensures
        r is Ok <==> set_builds(strs_view(patterns@)),
        (exists|i: int| 0 <= i < patterns@.len() && !re_valid(patterns@[i]@)) ==> r is Err,
        r is Ok ==> set_patterns(r.unwrap()).len() == patterns@.len(),
        r is Ok ==> forall|i: int|
            0 <= i < patterns@.len() ==> #[trigger] set_patterns(r.unwrap())[i] == patterns@[i]@,
{
    match regex::RegexSet::new(patterns) {
        Ok(rs) => Ok(rs),
        Err(e) => Err(format!("{e}")),
    }
}

/// Relies on `regex::RegexSet::clone`: the copy holds the same patterns.
#[verifier::external_body]
pub fn regex_set_clone(rs: &regex::RegexSet) -> (r: regex::RegexSet)
    ensures
        set_patterns(r) == set_patterns(*rs),
{
    rs.clone()
}

/// Relies on `regex::RegexSet::is_match`: true exactly when at least one
/// member pattern matches the haystack.
#[verifier::external_body]
pub fn regex_set_is_match(rs: &regex::RegexSet, text: &str) -> (r: bool)
    ensures
        r == (exists|i: int|
            0 <= i < set_patterns(*rs).len() && re_match(#[trigger] set_patterns(*rs)[i], text@)),
{
    rs.is_match(text)
}

} // verus!
