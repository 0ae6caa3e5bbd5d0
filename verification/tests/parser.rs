use comrade::parser::parse;

#[test]
fn parses() {
    let input = "[Fri Apr 29 17:25:01 2022] Mrshaman healed Mrswarrior over time for 500 hit points by Prophet's Gift of the Ruchu.\r\n";
    let result = parse(input).unwrap();

    assert_eq!(result, ("Fri Apr 29 17:25:01 2022", "Mrshaman healed Mrswarrior over time for 500 hit points by Prophet's Gift of the Ruchu."));
}

#[test]
fn parses_without_carriage_return() {
    let input = "[Fri Apr 29 17:25:01 2022] You have been slain by Dragon.\n";
    let result = parse(input).unwrap();

    assert_eq!(result, ("Fri Apr 29 17:25:01 2022", "You have been slain by Dragon."));
}

#[test]
fn rejects_line_without_newline() {
    assert!(parse("[Fri Apr 29 17:25:01 2022] message").is_none());
}

#[test]
fn rejects_line_without_brackets() {
    assert!(parse("Fri Apr 29 17:25:01 2022 message\n").is_none());
}

#[test]
fn rejects_empty_message() {
    assert!(parse("[Fri Apr 29 17:25:01 2022] \n").is_none());
}

#[test]
fn rejects_empty_timestamp() {
    assert!(parse("[] message\n").is_none());
}

#[test]
fn rejects_missing_space_after_bracket() {
    assert!(parse("[Fri Apr 29 17:25:01 2022]message\n").is_none());
}

#[test]
fn keeps_interior_carriage_returns() {
    let result = parse("[date] a\rb\r\n").unwrap();
    assert_eq!(result.1, "a\rb");
}

#[test]
fn message_of_one_carriage_return_is_kept() {
    let result = parse("[date] \r\n\n");
    assert!(result.is_none());
    let result = parse("[abc] \r\n").unwrap();
    assert_eq!(result.1, "\r");
}

#[test]
fn splits_at_first_closing_bracket() {
    let result = parse("[ab] cd] ef\n").unwrap();
    assert_eq!(result, ("ab", "cd] ef"));
}
