//! Introductions, addresses, reconnecting, reports and what is in the way of
//! input.

use smkvm::clipboard::{Available, ClipboardError};
use smkvm::command::{choose_server, find_known, is_yes, with_default_port, Backoff, Known};
use smkvm::control::{ClientControl, Reject, Role, ServerControl, SuspendReason};
use smkvm::hello::{hello, judge_client, judge_server, Verdict};
use smkvm::layout::{DeviceId, Rect};
use smkvm::platform::{
    injection_blocked, injection_possible, reaches_every_window, InputDesktop, Outranked,
};
use smkvm::proto::ClipFormat;
use smkvm::status::{Machine, MachineState, PlacedMonitor, Status};

fn dev(n: u8) -> DeviceId {
    DeviceId::from_bytes([n; 32])
}

#[test]
fn two_builds_that_differ_tell_each_other_so() {
    let mine = hello(2, dev(1), "desk", Role::Server);
    assert_eq!(judge_server(ServerControl::Hello(mine), 2).unwrap().name, "desk");
    let older = hello(1, dev(1), "desk", Role::Server);
    assert_eq!(
        judge_server(ServerControl::Hello(older), 2).unwrap_err(),
        "the server speaks protocol version 1, this build speaks 2; update the older one"
    );
    let reason = Reject::ProtocolVersion { theirs: 2, ours: 3 };
    assert!(judge_server(ServerControl::Rejected { reason }, 2).is_err());
    assert!(judge_server(ServerControl::Leave, 2).is_err());

    let first = ClientControl::Hello(hello(2, dev(2), "laptop", Role::Client));
    assert!(matches!(judge_client(first, 2), Verdict::Welcome(h) if h.name == "laptop"));
    let first = ClientControl::Hello(hello(1, dev(2), "laptop", Role::Client));
    match judge_client(first, 2) {
        Verdict::TurnAway { reply, why } => {
            let reason = Reject::ProtocolVersion { theirs: 1, ours: 2 };
            assert_eq!(reply, ServerControl::Rejected { reason });
            assert_eq!(
                why,
                "laptop speaks protocol version 1, this build speaks 2; update the older one"
            );
        }
        other => panic!("{other:?}"),
    }
    assert!(matches!(judge_client(ClientControl::Resumed, 2), Verdict::HangUp(_)));
}

#[test]
fn an_address_without_a_port_gets_the_usual_one() {
    assert_eq!(with_default_port("desk"), "desk:24810");
    assert_eq!(with_default_port("desk:99"), "desk:99");
    assert_eq!(with_default_port("desk:nine"), "desk:nine:24810");
    assert_eq!(with_default_port("fe80::1"), "fe80::1:24810");
}

#[test]
fn yes_is_said_in_two_ways() {
    for yes in ["y", "Y", " yes\n", "YES"] {
        assert!(is_yes(yes), "{yes:?}");
    }
    for no in ["", "n", "yes!", "ye"] {
        assert!(!is_yes(no), "{no:?}");
    }
}

#[test]
fn a_machine_is_found_by_name_or_by_how_its_identity_begins() {
    let known = vec![
        Known { name: "desk".to_string(), hex: "aa11".to_string() },
        Known { name: "laptop".to_string(), hex: "bb22".to_string() },
    ];
    assert_eq!(find_known(&known, "laptop"), Some(1));
    assert_eq!(find_known(&known, "aa"), Some(0));
    assert_eq!(find_known(&known, "cc"), None);
    let names = vec!["desk".to_string(), "laptop".to_string()];
    assert_eq!(choose_server(&names, "laptop"), Some(1));
    assert_eq!(choose_server(&names, "other"), Some(0));
    assert_eq!(choose_server(&vec!["x".to_string()], "laptop"), Some(0));
    assert_eq!(choose_server(&Vec::new(), "laptop"), None);
}

#[test]
fn a_link_that_keeps_failing_is_tried_less_often() {
    let mut backoff = Backoff::new();
    let waits: Vec<u64> = (0..8).map(|_| backoff.after(false)).collect();
    assert_eq!(waits, vec![250, 500, 1000, 2000, 4000, 8000, 10000, 10000]);
    assert_eq!(backoff.after(true), 250, "one that ended well starts afresh");
    assert_eq!(backoff.after(false), 500);
}

#[test]
fn a_report_is_believed_for_a_while() {
    let mut machine = Machine::new("over-there", Some(dev(2)), MachineState::Connected);
    machine.active = true;
    machine.monitor.push(PlacedMonitor {
        id: "DP-1".into(),
        global: [1920, 0, 2560, 1440],
        label: Some("HCS27".into()),
        primary: true,
    });
    let quiet = Machine::new("this-one", None, MachineState::Away);
    let report = Status::new(Role::Server, "this-one", vec![quiet, machine], 1000, 7);
    assert!(report.is_current(1000) && report.is_current(1015) && !report.is_current(1016));
    assert!(report.is_current(1), "a clock set back does not age it");
    assert_eq!((report.age(1010), report.age(1)), (10, 0));
    assert_eq!(report.active().map(|m| m.name.as_str()), Some("over-there"));
    assert!(report.machine("nobody").is_none());
    assert_eq!(
        report.machine("over-there").unwrap().monitor[0].rect(),
        Rect::new(1920, 0, 2560, 1440)
    );
    assert_eq!((Status::FRESH_FOR, Status::REFRESH_EVERY), (15, 5));
}

#[test]
fn what_is_in_the_way_of_input_is_named() {
    let ours = InputDesktop::Ours;
    assert_eq!(injection_blocked(&ours, &None, true), None);
    let prompt = InputDesktop::Elsewhere("Winlogon".to_string());
    let (reason, said) = injection_blocked(&prompt, &None, true).unwrap();
    assert_eq!(reason, SuspendReason::SecureDesktop);
    assert!(said.starts_with("input is going to the Winlogon desktop"));
    let (reason, _) = injection_blocked(&InputDesktop::OutOfReach, &None, true).unwrap();
    assert_eq!(reason, SuspendReason::SecureDesktop);
    let front = Some(Outranked {
        program: "regedit".to_string(),
        theirs: "high".to_string(),
        ours: "medium".to_string(),
    });
    let (reason, said) = injection_blocked(&ours, &front, true).unwrap();
    assert_eq!(reason, SuspendReason::Elevated);
    assert!(said.starts_with("regedit is in front and runs at a high integrity level"));
    let (reason, _) = injection_blocked(&ours, &None, false).unwrap();
    assert_eq!(reason, SuspendReason::Other);
    assert!(injection_possible(&ours, true) && !injection_possible(&ours, false));
    assert!(!injection_possible(&prompt, true));
    assert!(reaches_every_window(0x3000) && !reaches_every_window(0x2fff));
}

#[test]
fn a_clipboard_error_speaks_plainly() {
    let said = |e: ClipboardError| e.message();
    assert_eq!(said(ClipboardError::Busy), "the clipboard is held by something else");
    assert_eq!(
        said(ClipboardError::Refused(ClipFormat::Png)),
        "the owning application would not hand over Png"
    );
    assert_eq!(
        said(ClipboardError::Refused(ClipFormat::Other("a\"b".to_string()))),
        "the owning application would not hand over Other(\"a\\\"b\")"
    );
    assert_eq!(
        said(ClipboardError::NothingUsable),
        "nothing on the clipboard is in a form this can carry"
    );
    assert_eq!(said(ClipboardError::Display("x".to_string())), "display server: x");
    assert_eq!(
        said(ClipboardError::Unsupported("it".to_string())),
        "it is not available on this platform"
    );
    let nothing = Available::default();
    assert_eq!(nothing.clone(), Available { formats: Vec::new() });
    assert!(nothing.is_empty() && !nothing.has(&ClipFormat::Text));
}
