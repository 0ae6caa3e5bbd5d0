use comrade::config::Character;
use comrade::engine::{Comrade, FileEventKind, LoadOptions};
use comrade::events::EventKind;
use comrade::stamp::Timestamp;
use comrade::triggers::{Action, Trigger, TriggerId, TriggerRef, TriggerSet, TriggerSource};

fn character(id: &str, filename: &str, disabled: Vec<TriggerRef>) -> Character {
    Character {
        id: id.to_string(),
        name: id.to_string(),
        server: "test".to_string(),
        filename: filename.to_string(),
        disabled_triggers: disabled,
    }
}

fn slain_trigger(actions: Vec<Action>) -> (TriggerId, Trigger) {
    (
        TriggerId("T1".to_string()),
        Trigger {
            name: "Slain".to_string(),
            comment: String::new(),
            search_text: r"^You have been slain by (.+)\.$".to_string(),
            actions,
        },
    )
}

fn local_set(triggers: Vec<(TriggerId, Trigger)>) -> TriggerSet {
    TriggerSet { source: TriggerSource::Local, triggers }
}

fn fallback() -> Timestamp {
    Timestamp { year: 2022, month: 4, day: 29, hour: 0, minute: 0, second: 0 }
}

fn engine_with(characters: Vec<Character>, sets: Vec<TriggerSet>) -> Comrade {
    let mut c = Comrade::new();
    c.load(LoadOptions::All { characters, triggers: sets }).unwrap();
    c.init(&vec![0]).unwrap();
    c.start().unwrap();
    c
}

const LINE: &str = "[Fri Apr 29 17:25:01 2022] You have been slain by Dragon.\n";

#[test]
fn basic_trigger() {
    let mut c = engine_with(
        vec![character("A", "/tmp/a.log", vec![])],
        vec![local_set(vec![slain_trigger(vec![Action::DisplayText {
            text: "Died to $1".to_string(),
            delay: None,
        }])])],
    );
    c.append_at("/tmp/a.log", LINE, LINE.len() as u64, 0, fallback());

    let first = c.event().unwrap();
    match first.kind() {
        EventKind::Triggered { log, trigger, character } => {
            assert_eq!(log.message, "You have been slain by Dragon.");
            assert_eq!(log.id, "A");
            assert_eq!(trigger.name, "Slain");
            assert_eq!(character.id, "A");
        }
        _ => panic!("expected a trigger record first"),
    }
    let second = c.event().unwrap();
    match second.kind() {
        EventKind::DisplayText(text) => assert_eq!(text, "Died to Dragon"),
        _ => panic!("expected the display text second"),
    }
    assert!(c.event().is_none());
}

#[test]
fn parsed_date_rides_along() {
    let mut c = engine_with(
        vec![character("A", "/tmp/a.log", vec![])],
        vec![local_set(vec![slain_trigger(vec![])])],
    );
    c.append_at("/tmp/a.log", LINE, LINE.len() as u64, 0, fallback());
    let ev = c.event().unwrap();
    match ev.kind() {
        EventKind::Triggered { log, .. } => {
            assert_eq!(
                log.date,
                Timestamp { year: 2022, month: 4, day: 29, hour: 17, minute: 25, second: 1 }
            );
        }
        _ => panic!("expected a trigger record"),
    }
}

#[test]
fn delayed_display() {
    let mut c = engine_with(
        vec![character("A", "/tmp/a.log", vec![])],
        vec![local_set(vec![slain_trigger(vec![Action::DisplayText {
            text: "Died to $1".to_string(),
            delay: Some(2),
        }])])],
    );
    c.append_at("/tmp/a.log", LINE, LINE.len() as u64, 0, fallback());

    let first = c.event().unwrap();
    assert!(matches!(first.kind(), EventKind::Triggered { .. }));
    assert!(c.event().is_none());

    c.on_tick(1000);
    assert!(c.event().is_none());

    c.on_tick(2500);
    let ev = c.event().unwrap();
    match ev.kind() {
        EventKind::DisplayText(text) => assert_eq!(text, "Died to Dragon"),
        _ => panic!("expected the delayed display text"),
    }
    assert_eq!(ev.created(), 2500);

    c.on_tick(3000);
    assert!(c.event().is_none());
}

#[test]
fn countdown_ticks_down_to_zero() {
    let mut c = engine_with(
        vec![character("A", "/tmp/a.log", vec![])],
        vec![local_set(vec![slain_trigger(vec![Action::Countdown {
            text: "Respawn".to_string(),
            duration: 5,
            delay: None,
        }])])],
    );
    c.append_at("/tmp/a.log", LINE, LINE.len() as u64, 0, fallback());

    let first = c.event().unwrap();
    assert!(matches!(first.kind(), EventKind::Triggered { .. }));
    let tick0 = c.event().unwrap();
    match tick0.kind() {
        EventKind::Countdown { text, duration, remaining } => {
            assert_eq!(text, "Respawn");
            assert_eq!(*duration, 5000);
            assert_eq!(*remaining, 5000);
        }
        _ => panic!("expected a countdown tick"),
    }

    let mut last = 5000u64;
    for now in [1000u64, 2000, 3500, 5000] {
        c.on_tick(now);
        let ev = c.event().unwrap();
        match ev.kind() {
            EventKind::Countdown { remaining, .. } => {
                assert!(*remaining < last);
                last = *remaining;
            }
            _ => panic!("expected a countdown tick"),
        }
    }
    assert_eq!(last, 0);

    c.on_tick(6000);
    assert!(c.event().is_none());
}

#[test]
fn rotation_reads_new_file_from_start() {
    let mut c = engine_with(
        vec![character("A", "/tmp/a.log", vec![])],
        vec![local_set(vec![slain_trigger(vec![])])],
    );
    let l1 = "[Fri Apr 29 17:25:01 2022] You have been slain by One.\n";
    let l2 = "[Fri Apr 29 17:25:02 2022] You have been slain by Two.\n";
    let l3 = "[Fri Apr 29 17:25:03 2022] You have been slain by Three.\n";
    c.append_at("/tmp/a.log", l1, l1.len() as u64, 0, fallback());
    c.append_at("/tmp/a.log", l2, l2.len() as u64, 1, fallback());

    // The file is truncated and recreated: the create notification makes
    // the tailer start over at the beginning.
    assert!(c.on_file_event("/tmp/a.log", FileEventKind::Create).is_none());
    assert_eq!(c.on_file_event("/tmp/a.log", FileEventKind::Modify), Some(0));
    c.append_at("/tmp/a.log", l3, l3.len() as u64, 2, fallback());

    let mut slain = Vec::new();
    while let Some(ev) = c.event() {
        if let EventKind::Triggered { log, .. } = ev.kind() {
            slain.push(log.message.clone());
        }
    }
    assert_eq!(
        slain,
        vec![
            "You have been slain by One.".to_string(),
            "You have been slain by Two.".to_string(),
            "You have been slain by Three.".to_string(),
        ]
    );
}

#[test]
fn partial_line_completes_on_next_modify() {
    let mut c = engine_with(
        vec![character("A", "/tmp/a.log", vec![])],
        vec![local_set(vec![slain_trigger(vec![])])],
    );
    let head = "[Fri Apr 29 17:25:01 2022] You have been";
    let tail = " slain by Dragon.\n";
    c.append_at("/tmp/a.log", head, head.len() as u64, 0, fallback());
    assert!(c.event().is_none());
    c.append_at("/tmp/a.log", tail, tail.len() as u64, 1, fallback());
    let ev = c.event().unwrap();
    assert!(matches!(ev.kind(), EventKind::Triggered { .. }));
    assert!(c.event().is_none());
}

#[test]
fn unknown_character_produces_nothing() {
    let mut c = Comrade::new();
    c.load(LoadOptions::All { characters: vec![], triggers: vec![] }).unwrap();
    c.init(&vec![]).unwrap();
    c.start().unwrap();
    c.append_at("/tmp/other.log", LINE, LINE.len() as u64, 0, fallback());
    assert!(c.event().is_none());
}

#[test]
fn character_without_triggers_rejects_all_lines() {
    let mut c = engine_with(vec![character("A", "/tmp/a.log", vec![])], vec![local_set(vec![])]);
    c.append_at("/tmp/a.log", LINE, LINE.len() as u64, 0, fallback());
    assert!(c.event().is_none());
}

#[test]
fn malformed_lines_produce_nothing() {
    let mut c = engine_with(
        vec![character("A", "/tmp/a.log", vec![])],
        vec![local_set(vec![slain_trigger(vec![])])],
    );
    let bad = "You have been slain by Dragon.\n";
    c.append_at("/tmp/a.log", bad, bad.len() as u64, 0, fallback());
    assert!(c.event().is_none());
}

#[test]
fn disabled_trigger_is_silent_until_reenabled() {
    let disabled = vec![TriggerRef::new(TriggerSource::Local, TriggerId("T1".to_string()))];
    let mut c = engine_with(
        vec![character("A", "/tmp/a.log", disabled)],
        vec![local_set(vec![slain_trigger(vec![])])],
    );
    c.append_at("/tmp/a.log", LINE, LINE.len() as u64, 0, fallback());
    assert!(c.event().is_none());

    // Re-enable by loading a configuration that disables nothing.
    c.load(LoadOptions::Config { characters: vec![character("A", "/tmp/a.log", vec![])] })
        .unwrap();
    c.append_at("/tmp/a.log", LINE, LINE.len() as u64, 1, fallback());
    let ev = c.event().unwrap();
    assert!(matches!(ev.kind(), EventKind::Triggered { .. }));
}

#[test]
fn hot_swap_uses_new_triggers_at_once() {
    let mut c = engine_with(
        vec![character("A", "/tmp/a.log", vec![])],
        vec![local_set(vec![slain_trigger(vec![])])],
    );
    let other = "[Fri Apr 29 17:25:01 2022] You gain experience!\n";
    c.append_at("/tmp/a.log", other, other.len() as u64, 0, fallback());
    assert!(c.event().is_none());

    let new_trigger = (
        TriggerId("T2".to_string()),
        Trigger {
            name: "Exp".to_string(),
            comment: String::new(),
            search_text: r"^You gain experience!$".to_string(),
            actions: vec![],
        },
    );
    c.load(LoadOptions::Triggers { triggers: vec![local_set(vec![new_trigger])] }).unwrap();
    c.append_at("/tmp/a.log", other, other.len() as u64, 1, fallback());
    let ev = c.event().unwrap();
    match ev.kind() {
        EventKind::Triggered { trigger, .. } => assert_eq!(trigger.name, "Exp"),
        _ => panic!("expected the new trigger to fire"),
    }
}

#[test]
fn bad_timestamp_falls_back_to_wall_clock() {
    let mut c = engine_with(
        vec![character("A", "/tmp/a.log", vec![])],
        vec![local_set(vec![slain_trigger(vec![])])],
    );
    let line = "[not a timestamp] You have been slain by Dragon.\n";
    c.append("/tmp/a.log", line, line.len() as u64, 0);
    let ev = c.event().unwrap();
    match ev.kind() {
        EventKind::Triggered { log, .. } => {
            assert_eq!(log.message, "You have been slain by Dragon.");
            assert!(1 <= log.date.month && log.date.month <= 12);
            assert!(1 <= log.date.day && log.date.day <= 31);
        }
        _ => panic!("expected a trigger record"),
    }
}

#[test]
fn stopped_engine_produces_nothing() {
    let mut c = engine_with(
        vec![character("A", "/tmp/a.log", vec![])],
        vec![local_set(vec![slain_trigger(vec![])])],
    );
    c.stop().unwrap();
    c.append_at("/tmp/a.log", LINE, LINE.len() as u64, 0, fallback());
    c.on_tick(1000);
    assert!(c.event().is_none());
}

#[test]
fn invalid_regex_fails_load_and_keeps_previous_snapshot() {
    let mut c = engine_with(
        vec![character("A", "/tmp/a.log", vec![])],
        vec![local_set(vec![slain_trigger(vec![])])],
    );
    let broken = (
        TriggerId("T9".to_string()),
        Trigger {
            name: "Broken".to_string(),
            comment: String::new(),
            search_text: "foo(bar".to_string(),
            actions: vec![],
        },
    );
    let r = c.load(LoadOptions::Triggers { triggers: vec![local_set(vec![broken])] });
    match r {
        Err(comrade::errors::ComradeError::TriggerError(
            comrade::errors::TriggerError::InvalidRegex { id, .. },
        )) => assert_eq!(id.0, "T9"),
        other => panic!("expected an invalid-regex error, got {other:?}"),
    }

    // The old trigger set is still in force.
    c.append_at("/tmp/a.log", LINE, LINE.len() as u64, 0, fallback());
    let ev = c.event().unwrap();
    assert!(matches!(ev.kind(), EventKind::Triggered { .. }));
}

#[test]
fn duplicate_files_fail_init() {
    let mut c = Comrade::new();
    c.load(LoadOptions::All {
        characters: vec![
            character("A", "/tmp/same.log", vec![]),
            character("B", "/tmp/same.log", vec![]),
        ],
        triggers: vec![],
    })
    .unwrap();
    match c.init(&vec![0, 0]) {
        Err(comrade::errors::ComradeError::LogWatcherError(
            comrade::errors::LogWatcherError::AlreadyWatching { path },
        )) => assert_eq!(path, "/tmp/same.log"),
        other => panic!("expected an already-watching error, got {other:?}"),
    }
}

#[test]
fn tailing_starts_at_end_of_existing_file() {
    let mut c = Comrade::new();
    c.load(LoadOptions::All {
        characters: vec![character("A", "/tmp/a.log", vec![])],
        triggers: vec![local_set(vec![slain_trigger(vec![])])],
    })
    .unwrap();
    c.init(&vec![500]).unwrap();
    c.start().unwrap();
    assert_eq!(c.on_file_event("/tmp/a.log", FileEventKind::Modify), Some(500));
}
