use comrade::events::EventKind;
use comrade::live::{ActionKind, LiveAction};

fn display(text: &str, delay_until: Option<u64>) -> LiveAction {
    LiveAction {
        kind: ActionKind::DisplayText { text: text.to_string() },
        delay_until,
        finished: false,
    }
}

#[test]
fn undelayed_message_fires_once() {
    let mut a = display("hi", None);
    let ev = a.events(0).unwrap();
    assert!(matches!(ev.kind(), EventKind::DisplayText(t) if t == "hi"));
    assert!(a.finished());
}

#[test]
fn delayed_message_waits_for_its_moment() {
    let mut a = display("hi", Some(2000));
    assert!(a.events(0).is_none());
    assert!(!a.finished());
    assert!(a.events(1999).is_none());
    let ev = a.events(2000).unwrap();
    assert_eq!(ev.created(), 2000);
    assert!(a.finished());
}

#[test]
fn countdown_reports_remaining_and_clamps_at_zero() {
    let mut a = LiveAction {
        kind: ActionKind::Countdown { text: "Respawn".to_string(), duration: 5000, ends_at: 5000 },
        delay_until: None,
        finished: false,
    };
    let ev = a.events(1500).unwrap();
    match ev.kind() {
        EventKind::Countdown { remaining, duration, .. } => {
            assert_eq!(*remaining, 3500);
            assert_eq!(*duration, 5000);
        }
        _ => panic!("expected a countdown tick"),
    }
    assert!(!a.finished());

    let ev = a.events(6000).unwrap();
    match ev.kind() {
        EventKind::Countdown { remaining, .. } => assert_eq!(*remaining, 0),
        _ => panic!("expected the final countdown tick"),
    }
    assert!(a.finished());
}
