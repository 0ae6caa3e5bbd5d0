use comrade::expand::expand_template;

fn groups(texts: &[Option<&str>]) -> Vec<Option<String>> {
    texts.iter().map(|t| t.map(|s| s.to_string())).collect()
}

#[test]
fn numeric_reference_yields_the_captured_substring() {
    let caps = groups(&[Some("You have been slain by Dragon."), Some("Dragon")]);
    let names = groups(&[None, None]);
    let out = expand_template("Died to $1", &caps, &names);
    assert_eq!(out, "Died to Dragon");
}

#[test]
fn braced_reference_binds_tightly() {
    let caps = groups(&[Some("ab"), Some("a")]);
    let names = groups(&[None, None]);
    assert_eq!(expand_template("${1}bc", &caps, &names), "abc");
    assert_eq!(expand_template("$1bc", &caps, &names), "");
}

#[test]
fn named_reference_resolves_by_group_name() {
    let caps = groups(&[Some("slain by Xan"), Some("Xan")]);
    let names = groups(&[None, Some("killer")]);
    assert_eq!(expand_template("Killed by $killer!", &caps, &names), "Killed by Xan!");
    assert_eq!(expand_template("Killed by ${killer}!", &caps, &names), "Killed by Xan!");
}

#[test]
fn double_dollar_is_a_literal_dollar() {
    let caps = groups(&[Some("x")]);
    let names = groups(&[None]);
    assert_eq!(expand_template("$$1", &caps, &names), "$1");
}

#[test]
fn dangling_dollar_stays() {
    let caps = groups(&[Some("x")]);
    let names = groups(&[None]);
    assert_eq!(expand_template("cost: $", &caps, &names), "cost: $");
    assert_eq!(expand_template("a$ b", &caps, &names), "a$ b");
}

#[test]
fn missing_group_expands_to_nothing() {
    let caps = groups(&[Some("x")]);
    let names = groups(&[None]);
    assert_eq!(expand_template("a$7b", &caps, &names), "a");
    assert_eq!(expand_template("a${7}b", &caps, &names), "ab");
}

#[test]
fn unparticipating_group_expands_to_nothing() {
    let caps = groups(&[Some("x"), None]);
    let names = groups(&[None, None]);
    assert_eq!(expand_template("[$1]", &caps, &names), "[]");
}

#[test]
fn braced_reference_takes_anything_up_to_the_brace() {
    let caps = groups(&[Some("x")]);
    let names = groups(&[None]);
    assert_eq!(expand_template("a${}b", &caps, &names), "ab");
    assert_eq!(expand_template("x${a-b}y", &caps, &names), "xy");
}

#[test]
fn unclosed_brace_stays_literal() {
    let caps = groups(&[Some("x")]);
    let names = groups(&[None]);
    assert_eq!(expand_template("${ab", &caps, &names), "${ab");
}

#[test]
fn group_zero_is_the_whole_match() {
    let caps = groups(&[Some("whole"), Some("part")]);
    let names = groups(&[None, None]);
    assert_eq!(expand_template("$0", &caps, &names), "whole");
}
