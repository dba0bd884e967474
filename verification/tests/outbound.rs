//! What is queued for a machine, and what the daemon does about its machines.

use smkvm::config::{Config, MonitorPlacement, Screen};
use smkvm::control::{ClientControl, Role, ServerControl, SuspendReason};
use smkvm::daemon::{
    became, bind_addresses, heartbeat_of, placements_of, report, settings_of, Act, Daemon, Handed,
    Outbound, SeenMachine, SeenMonitor, Sent, CONTROL_QUEUE, MOTION_QUEUE,
};
use smkvm::layout::{DeviceId, Point, Rect};
use smkvm::proto::{Bulk, ClipFormat, ClipSeq};
use smkvm::server::{Event, Health};
use smkvm::status::MachineState;

const SECOND: u64 = 1_000_000_000;

fn dev(n: u8) -> DeviceId {
    DeviceId::from_bytes([n; 32])
}

fn enter() -> ServerControl {
    ServerControl::Enter { at: Point::new(0, 0), pressed: Vec::new(), buttons: Vec::new() }
}

fn chunk() -> ServerControl {
    ServerControl::Bulk(Bulk::ClipChunk {
        seq: ClipSeq { device: dev(2), counter: 1 },
        format: ClipFormat::Text,
        offset: 0,
        data: vec![1, 2, 3],
        last: true,
    })
}

#[test]
fn a_machine_drowning_in_motion_can_still_be_told_the_cursor_arrived() {
    // The failure this exists to prevent. Motion arrives thousands of times
    // a minute and control a handful, so a shared queue is always full of
    // motion at the moment the one message that cannot be lost turns up.
    let (out, mut control, mut motion) = Outbound::with_room(8, 2);
    for _ in 0..2 {
        assert_eq!(out.send(ServerControl::MoveTo { x: 1, y: 1 }), Sent::Queued);
    }
    assert_eq!(
        out.send(ServerControl::MoveTo { x: 2, y: 2 }),
        Sent::Dropped,
        "motion should give way once its queue is full"
    );

    assert_eq!(out.send(enter()), Sent::Queued);
    assert_eq!(out.send(ServerControl::Leave), Sent::Queued);
    assert_eq!(out.send(ServerControl::ReleaseAll), Sent::Queued);
    assert_eq!(
        out.send(chunk()),
        Sent::Queued,
        "the clipboard rides with control"
    );

    // Each kind waits in a queue of its own, in order.
    assert!(matches!(control.try_recv(), Ok(ServerControl::Enter { .. })));
    assert!(matches!(control.try_recv(), Ok(ServerControl::Leave)));
    assert!(matches!(control.try_recv(), Ok(ServerControl::ReleaseAll)));
    assert!(matches!(control.try_recv(), Ok(ServerControl::Bulk(_))));
    assert!(control.try_recv().is_err());
    assert!(matches!(motion.try_recv(), Ok(ServerControl::MoveTo { x: 1, y: 1 })));
    assert!(matches!(motion.try_recv(), Ok(ServerControl::MoveTo { x: 1, y: 1 })));
    assert!(motion.try_recv().is_err());
    // A message is given back as it was handed over.
    assert_eq!(out.send(chunk()), Sent::Queued);
    assert_eq!(control.try_recv(), Ok(chunk()));
    assert!(motion.try_recv().is_err());
    // Once it has been read there is room again.
    assert_eq!(out.send(ServerControl::MoveTo { x: 3, y: 3 }), Sent::Queued);
}

#[test]
fn a_thousand_unread_state_changes_is_a_fault_not_a_busy_moment() {
    let (out, _control, _motion) = Outbound::with_room(2, 8);
    assert_eq!(out.send(enter()), Sent::Queued);
    assert_eq!(out.send(ServerControl::Leave), Sent::Queued);
    assert_eq!(out.send(enter()), Sent::Overflowed);
    assert_eq!((CONTROL_QUEUE, MOTION_QUEUE), (1024, 256));

    let (usual, _control, _motion) = Outbound::new();
    for _ in 0..1024 {
        assert_eq!(usual.send(ServerControl::Leave), Sent::Queued);
    }
    assert_eq!(usual.send(ServerControl::Leave), Sent::Overflowed);
    for _ in 0..256 {
        assert_eq!(usual.send(ServerControl::MoveTo { x: 1, y: 1 }), Sent::Queued);
    }
    assert_eq!(usual.send(ServerControl::MoveTo { x: 1, y: 1 }), Sent::Dropped);
}

#[test]
fn a_link_nobody_reads_is_reported_as_such_whatever_is_sent() {
    let (out, control, motion) = Outbound::with_room(8, 8);
    drop(control);
    drop(motion);
    assert_eq!(out.send(ServerControl::MoveTo { x: 1, y: 1 }), Sent::Closed);
    assert_eq!(out.send(enter()), Sent::Closed);
}

#[test]
fn only_a_position_gives_way_to_a_full_queue() {
    assert_eq!(became(true, Handed::Full), Sent::Dropped);
    assert_eq!(became(false, Handed::Full), Sent::Overflowed);
    for may_be_dropped in [true, false] {
        assert_eq!(became(may_be_dropped, Handed::Taken), Sent::Queued);
        assert_eq!(became(may_be_dropped, Handed::Closed), Sent::Closed);
    }
    assert!(ServerControl::MoveTo { x: 1, y: 1 }.may_be_dropped());
    assert!(!ServerControl::Leave.may_be_dropped());
}

#[test]
fn the_configuration_says_where_to_listen_and_how_long_to_wait() {
    let mut config = Config::fresh("desk", Role::Server);
    assert_eq!(bind_addresses(&config), vec!["127.0.0.1:24810"]);
    config.network.listen = vec!["10.0.0.1".to_string(), "::1".to_string()];
    assert_eq!(bind_addresses(&config), vec!["10.0.0.1:24810", "[::1]:24810"]);
    assert_eq!(heartbeat_of(&config), 3 * SECOND);
    config.network.heartbeat_ms = 10;
    assert_eq!(heartbeat_of(&config), SECOND / 2);
    config.behavior.switch_delay_ms = 250;
    assert_eq!(settings_of(&config).switch_delay, SECOND / 4);
    config.screen.push(Screen {
        name: "over-there".to_string(),
        device: Some(dev(2)),
        grid: None,
        monitor: vec![MonitorPlacement { id: "DP-1".to_string(), global: [10, 20, 30, 40] }],
    });
    let placed = placements_of(&config);
    assert_eq!(placed.len(), 1);
    assert_eq!(placed[0].machine, "over-there");
    assert_eq!(placed[0].monitor, "DP-1");
    assert_eq!(placed[0].global, Rect::new(10, 20, 30, 40));
}

#[test]
fn a_machine_that_stops_answering_is_let_go() {
    let mut daemon = Daemon::new(dev(1), SECOND);
    assert!(daemon.has_room());
    let out = daemon.arrived(dev(2), "over-there", 0);
    assert!(out.iter().any(|a| matches!(a, Act::Welcome { generation: 1, .. })));
    assert!(daemon.current(dev(2), 1));
    assert!(!daemon.current(dev(2), 0), "an old connection is not listened to");

    let quiet = daemon.beat(2 * SECOND);
    assert!(
        quiet.iter().any(|a| matches!(a, Act::Send { msg: ServerControl::Ping { .. }, .. })),
        "it is asked first: {quiet:?}"
    );
    let gone = daemon.beat(4 * SECOND);
    assert!(gone.iter().any(|a| matches!(a, Act::LetGo { .. })), "{gone:?}");
    assert!(gone.iter().any(|a| matches!(a, Act::PeerGone(_))));
    assert!(!daemon.current(dev(2), 1));
    assert!(daemon.gone(dev(2), 1).is_empty(), "it is gone already");
}

#[test]
fn what_a_machine_says_is_passed_on() {
    let mut daemon = Daemon::new(dev(1), SECOND);
    daemon.arrived(dev(2), "over-there", 0);
    let said = ClientControl::Suspended { reason: SuspendReason::Locked };
    let out = daemon.heard(dev(2), 1, said, SECOND);
    assert!(out
        .iter()
        .any(|a| matches!(a, Act::Feed(Event::ClientSuspended { .. }))));
    let out = daemon.heard(dev(2), 7, ClientControl::Resumed, SECOND);
    assert!(out.is_empty(), "an old connection is not listened to");
}

#[test]
fn a_queue_that_overflows_ends_the_link() {
    let mut daemon = Daemon::new(dev(1), SECOND);
    daemon.arrived(dev(2), "over-there", 0);
    assert!(daemon.sent(dev(2), Sent::Dropped).is_empty());
    assert!(daemon.sent(dev(2), Sent::Queued).is_empty());
    let out = daemon.sent(dev(2), Sent::Overflowed);
    assert!(out.iter().any(|a| matches!(a, Act::LetGo { .. })), "{out:?}");
    assert!(!daemon.current(dev(2), 1));
}

#[test]
fn a_report_is_written_when_something_changed_and_every_few_seconds() {
    let mut daemon = Daemon::new(dev(1), SECOND);
    assert!(daemon.should_report(0));
    daemon.reported(0);
    assert!(!daemon.should_report(10 * SECOND), "nothing has changed");
    daemon.note_reloaded();
    assert!(!daemon.should_report(SECOND / 8), "too soon after the last");
    assert!(daemon.should_report(SECOND));
    assert!(daemon.housekeeping(false, SECOND).is_empty());
    assert!(matches!(daemon.housekeeping(true, SECOND)[0], Act::Reload));
    assert!(daemon
        .housekeeping(false, 6 * SECOND)
        .iter()
        .any(|a| matches!(a, Act::WriteStatus)));
}

#[test]
fn a_report_says_how_each_machine_stands_and_where_its_screens_are() {
    let seen = |n: u8, health: Option<Health>, global: Option<Rect>| SeenMachine {
        id: dev(n),
        name: format!("machine {n}"),
        health,
        monitors: vec![SeenMonitor { id: "DP-1".to_string(), global, label: None, primary: true }],
    };
    let all = vec![
        seen(1, None, Some(Rect::new(0, 0, 100, 50))),
        seen(2, Some(Health::Ready), None),
        seen(3, Some(Health::Suspended), None),
        seen(4, None, None),
    ];
    let machines = report(dev(1), dev(2), &all);
    let states: Vec<(MachineState, bool)> = machines.iter().map(|m| (m.state, m.active)).collect();
    assert_eq!(
        states,
        vec![
            (MachineState::Connected, false),
            (MachineState::Connected, true),
            (MachineState::Suspended, false),
            (MachineState::Away, false),
        ]
    );
    assert_eq!(machines[0].monitor[0].global, [0, 0, 100, 50]);
    assert!(machines[1].monitor.is_empty(), "a display with no place is left out");
}
