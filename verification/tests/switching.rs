//! Handing the cursor between machines.
//!
//! Everything here runs with no display server, no sockets and no real clock:
//! events go in with a timestamp and actions come out. That is what makes the
//! awkward moments testable: a modifier held across a crossing, a machine that
//! vanishes while it has the cursor, a screen edge with nothing usable beyond
//! it.

use smkvm::control::{Key, MouseButton, ServerControl, SuspendReason};
use smkvm::layout::{Cell, DeviceId, Located, Monitor, Motion, Point, Rect, Settled};
use smkvm::server::{
    Action, Event, Health, LocalAction, Placed, Placement, PointerMode, Question, Server, Settings,
    Sight,
};

const A: Key = Key(0x04);
const LEFT_CTRL: Key = Key(0xE0);
const MILLISECOND: u64 = 1_000_000;
const SECOND: u64 = 1_000_000_000;

fn dev(n: u8) -> DeviceId {
    DeviceId::from_bytes([n; 32])
}

/// A desktop on which every screen shows its own pixels one for one.
struct Desk {
    cells: Vec<Cell>,
}

impl Desk {
    fn place(&mut self, device: DeviceId, local: Rect, at: Point) {
        self.cells.retain(|c| c.device != device);
        let global = Rect::new(at.x, at.y, local.w, local.h);
        self.cells.push(Cell { device, local, global });
    }

    fn locate(&self, p: Point) -> Option<Located> {
        self.cells.iter().find(|c| c.global.contains(p)).map(|c| Located {
            device: c.device,
            local: Point::new(p.x - c.global.x + c.local.x, p.y - c.global.y + c.local.y),
        })
    }

    /// The nearest position that is on a screen.
    fn nearest(&self, p: Point) -> Option<Point> {
        self.cells
            .iter()
            .map(|c| c.global.clamp_point(p))
            .min_by_key(|q| (i64::from(q.x - p.x)).pow(2) + (i64::from(q.y - p.y)).pow(2))
    }

    fn resolve(&self, from: Point, dx: i32, dy: i32) -> Option<Motion> {
        let to = Point::new(from.x + dx, from.y + dy);
        let global = self.nearest(to)?;
        let located = self.locate(global)?;
        Some(Motion { global, located, adjusted: global != to })
    }

    /// What the server gets to see: the screens, and what it asks about them.
    fn sight(&self, server: &Server, event: &Event, now: u64) -> Sight {
        let mut sight = Sight {
            cells: self.cells.clone(),
            motion: None,
            mapped: None,
            located: None,
            snapped: None,
        };
        let first = server.first_question(event, &self.cells, now);
        self.answer(first, &mut sight);
        let second = server.second_question(&self.cells, sight.motion, now);
        self.answer(second, &mut sight);
        sight
    }

    fn answer(&self, question: Question, sight: &mut Sight) {
        match question {
            Question::Nothing => {}
            Question::Resolve { from, dx, dy } => sight.motion = self.resolve(from, dx, dy),
            Question::ToDesktop { local, global, at } => {
                sight.mapped =
                    Some(Point::new(at.x - local.x + global.x, at.y - local.y + global.y));
            }
            Question::Locate(at) => sight.located = self.locate(at),
            Question::Snap(at) => {
                sight.snapped = self
                    .nearest(at)
                    .and_then(|p| self.locate(p).map(|located| Settled { global: p, located }));
            }
        }
    }
}

/// A server with the desktop it is asked about.
struct Machine {
    server: Server,
    desk: Desk,
}

impl Machine {
    fn handle(&mut self, event: Event, now: u64) -> Vec<Action> {
        let sight = self.desk.sight(&self.server, &event, now);
        self.server.handle(event, &sight, now)
    }

    fn active(&self) -> DeviceId {
        self.server.active()
    }

    fn cursor(&self) -> Point {
        self.server.cursor()
    }

    fn pointer_mode(&self) -> PointerMode {
        self.server.pointer_mode()
    }
}

fn screen() -> Rect {
    Rect::new(0, 0, 1920, 1080)
}

/// The server's screen on the left, one client's on the right.
fn two_machines(settings: Settings) -> (Machine, DeviceId, DeviceId) {
    let (local, client) = (dev(1), dev(2));
    let mut desk = Desk { cells: Vec::new() };
    desk.place(local, screen(), Point::new(0, 0));
    desk.place(client, screen(), Point::new(1920, 0));

    let server = Server::new(local, &desk.cells, settings);
    let mut machine = Machine { server, desk };
    // Until a machine finishes its handshake it has no session, however much
    // the layout knows about it.
    machine.handle(Event::ClientUp { device: client }, now());
    (machine, local, client)
}

fn now() -> u64 {
    100 * SECOND
}

/// Move the pointer onto the middle of the server's own screen.
fn centre(server: &mut Machine) {
    server.handle(Event::PointerBy { dx: 960, dy: 540 }, now());
    assert_eq!(server.cursor(), Point::new(960, 540));
}

fn sent_to(actions: &[Action], device: DeviceId) -> Vec<&ServerControl> {
    actions
        .iter()
        .filter_map(|a| match a {
            Action::Send { to, msg } if *to == device => Some(msg),
            _ => None,
        })
        .collect()
}

fn local_actions(actions: &[Action]) -> Vec<LocalAction> {
    actions
        .iter()
        .filter_map(|a| match a {
            Action::Local(l) => Some(*l),
            _ => None,
        })
        .collect()
}

#[test]
fn the_cursor_starts_at_home() {
    let (server, local, _) = two_machines(Settings::default());
    assert_eq!(server.active(), local);
    assert_eq!(server.pointer_mode(), PointerMode::Local);
}

#[test]
fn moving_around_the_local_screen_tells_nobody() {
    let (mut server, _, _) = two_machines(Settings::default());
    let actions = server.handle(Event::PointerBy { dx: 500, dy: 300 }, now());
    assert!(
        actions.is_empty(),
        "the operating system is already moving the pointer: {actions:?}"
    );
    assert_eq!(server.cursor(), Point::new(500, 300));
}

#[test]
fn crossing_carries_the_input_state_with_it() {
    let (mut server, _, client) = two_machines(Settings::default());
    centre(&mut server);

    // A chord is in progress when the cursor leaves.
    server.handle(
        Event::Key {
            key: LEFT_CTRL,
            down: true,
            repeat: false,
        },
        now(),
    );
    server.handle(
        Event::Button {
            button: MouseButton::Left,
            down: true,
        },
        now(),
    );

    let actions = server.handle(Event::PointerBy { dx: 1000, dy: 0 }, now());
    assert_eq!(server.active(), client);
    assert_eq!(server.pointer_mode(), PointerMode::Captured);

    assert_eq!(
        sent_to(&actions, client),
        vec![&ServerControl::Enter {
            at: Point::new(40, 540),
            pressed: vec![LEFT_CTRL],
            buttons: vec![MouseButton::Left],
        }],
        "what is held must arrive with the cursor, or the chord breaks"
    );
    assert_eq!(
        local_actions(&actions),
        vec![LocalAction::SetPointerMode(PointerMode::Captured)]
    );
}

#[test]
fn coming_back_releases_the_client_and_restores_local_control() {
    let (mut server, local, client) = two_machines(Settings::default());
    centre(&mut server);
    server.handle(Event::PointerBy { dx: 1000, dy: 0 }, now());
    assert_eq!(server.active(), client);

    let actions = server.handle(Event::PointerBy { dx: -200, dy: 0 }, now());
    assert_eq!(server.active(), local);
    assert_eq!(server.pointer_mode(), PointerMode::Local);
    assert_eq!(
        sent_to(&actions, client),
        vec![&ServerControl::Leave],
        "the machine being left must be told to let go"
    );
    assert!(local_actions(&actions).contains(&LocalAction::SetPointerMode(PointerMode::Local)));
    assert!(local_actions(&actions)
        .iter()
        .any(|a| matches!(a, LocalAction::WarpCursor { .. })));
}

#[test]
fn keys_reach_only_the_machine_holding_the_cursor() {
    let (mut server, _, client) = two_machines(Settings::default());
    centre(&mut server);

    // While the cursor is here, the local machine already sees the key.
    let actions = server.handle(
        Event::Key {
            key: A,
            down: true,
            repeat: false,
        },
        now(),
    );
    assert!(actions.is_empty());
    server.handle(
        Event::Key {
            key: A,
            down: false,
            repeat: false,
        },
        now(),
    );

    server.handle(Event::PointerBy { dx: 1000, dy: 0 }, now());
    let actions = server.handle(
        Event::Key {
            key: A,
            down: true,
            repeat: false,
        },
        now(),
    );
    assert_eq!(
        sent_to(&actions, client),
        vec![&ServerControl::KeyEvent {
            key: A,
            down: true,
            repeat: false
        }]
    );
}

#[test]
fn an_edge_with_no_session_beyond_it_is_a_wall() {
    // The layout knows about the machine, but nothing has connected. Sending
    // the cursor there would make it vanish onto a screen that cannot move it.
    let (local, absent) = (dev(1), dev(3));
    let mut desk = Desk { cells: Vec::new() };
    desk.place(local, screen(), Point::new(0, 0));
    desk.place(absent, screen(), Point::new(1920, 0));
    let mut server = Machine { server: Server::new(local, &desk.cells, Settings::default()), desk };

    server.handle(Event::PointerBy { dx: 960, dy: 540 }, now());
    let actions = server.handle(Event::PointerBy { dx: 5000, dy: 0 }, now());

    assert_eq!(server.active(), local, "the cursor stayed put");
    assert!(sent_to(&actions, absent).is_empty());
    // It still travels as far as the screen goes.
    assert_eq!(server.cursor(), Point::new(1919, 540));
}

#[test]
fn a_machine_that_cannot_act_gives_the_cursor_back() {
    // This is the Windows secure-desktop case: the client is connected and
    // fine, but nothing it is told to do will reach the screen. Continuing to
    // send it positions is what makes the pointer judder.
    let (mut server, local, client) = two_machines(Settings::default());
    centre(&mut server);
    server.handle(Event::PointerBy { dx: 1000, dy: 0 }, now());
    assert_eq!(server.active(), client);

    let actions = server.handle(
        Event::ClientSuspended {
            device: client,
            reason: SuspendReason::SecureDesktop,
        },
        now(),
    );
    assert_eq!(server.active(), local);
    assert_eq!(server.pointer_mode(), PointerMode::Local);
    assert!(local_actions(&actions).contains(&LocalAction::SetPointerMode(PointerMode::Local)));

    // And it stays unreachable until it says otherwise.
    server.handle(Event::PointerBy { dx: 5000, dy: 0 }, now());
    assert_eq!(server.active(), local);

    server.handle(Event::ClientResumed { device: client }, now());
    server.handle(Event::PointerBy { dx: 5000, dy: 0 }, now());
    assert_eq!(server.active(), client, "usable again once it recovers");
}

#[test]
fn a_machine_that_disappears_gives_the_cursor_back() {
    let (mut server, local, client) = two_machines(Settings::default());
    centre(&mut server);
    server.handle(Event::PointerBy { dx: 1000, dy: 0 }, now());

    let actions = server.handle(Event::ClientDown { device: client }, now());
    assert_eq!(server.active(), local);
    assert!(local_actions(&actions)
        .iter()
        .any(|a| matches!(a, LocalAction::WarpCursor { .. })));

    // The cursor must not be able to wander onto a machine that is gone.
    server.handle(Event::PointerBy { dx: 5000, dy: 0 }, now());
    assert_eq!(server.active(), local);
}

#[test]
fn a_switch_delay_makes_the_cursor_wait_at_the_edge() {
    let settings = Settings {
        switch_delay: 250 * MILLISECOND,
        ..Settings::default()
    };
    let (mut server, local, client) = two_machines(settings);
    centre(&mut server);

    let start = now();
    let actions = server.handle(Event::PointerBy { dx: 1000, dy: 0 }, start);
    assert_eq!(server.active(), local, "not yet");
    assert!(sent_to(&actions, client).is_empty());
    assert_eq!(server.cursor(), Point::new(1919, 540), "waits at the edge");

    // Still too soon.
    server.handle(Event::Tick, start + 100 * MILLISECOND);
    assert_eq!(server.active(), local);

    let actions = server.handle(Event::Tick, start + 300 * MILLISECOND);
    assert_eq!(server.active(), client);
    assert!(matches!(
        sent_to(&actions, client).first(),
        Some(ServerControl::Enter { .. })
    ));
}

#[test]
fn a_double_tap_crosses_straight_away_on_the_second_strike() {
    let settings = Settings {
        switch_double_tap: 250 * MILLISECOND,
        ..Settings::default()
    };
    let (mut server, local, client) = two_machines(settings);
    centre(&mut server);

    let start = now();
    server.handle(Event::PointerBy { dx: 1000, dy: 0 }, start);
    assert_eq!(server.active(), local, "one strike is not enough");

    // Come away from the edge and strike it again within the window.
    server.handle(
        Event::PointerBy { dx: -400, dy: 0 },
        start + 50 * MILLISECOND,
    );
    server.handle(
        Event::PointerBy { dx: 1000, dy: 0 },
        start + 100 * MILLISECOND,
    );
    assert_eq!(server.active(), client);
}

#[test]
fn a_strike_after_the_window_has_passed_does_not_count() {
    let settings = Settings {
        switch_double_tap: 250 * MILLISECOND,
        ..Settings::default()
    };
    let (mut server, local, _) = two_machines(settings);
    centre(&mut server);

    let start = now();
    server.handle(Event::PointerBy { dx: 1000, dy: 0 }, start);
    server.handle(
        Event::PointerBy { dx: -400, dy: 0 },
        start + 1 * SECOND,
    );
    server.handle(
        Event::PointerBy { dx: 1000, dy: 0 },
        start + 2 * SECOND,
    );
    assert_eq!(server.active(), local, "too late to count as a double tap");
}

#[test]
fn an_absolute_position_only_resynchronises() {
    // Pointer acceleration means raw motion and real movement differ, so the
    // tracked position is corrected from the real one. That correction must
    // never itself look like movement.
    let (mut server, local, client) = two_machines(Settings::default());
    centre(&mut server);

    let actions = server.handle(Event::PointerAt { x: 1919, y: 540 }, now());
    assert!(actions.is_empty());
    assert_eq!(server.cursor(), Point::new(1919, 540));
    assert_eq!(server.active(), local, "a resync never crosses");

    // Pushing further from the edge is what crosses.
    server.handle(Event::PointerBy { dx: 10, dy: 0 }, now());
    assert_eq!(server.active(), client);
}

#[test]
fn a_display_change_leaves_the_cursor_somewhere_real() {
    let (mut server, _, client) = two_machines(Settings::default());
    centre(&mut server);
    server.handle(Event::PointerBy { dx: 1000, dy: 0 }, now());
    assert_eq!(server.active(), client);

    // The client's screen shrinks out from under the cursor.
    server.desk.place(client, Rect::new(0, 0, 640, 480), Point::new(1920, 0));
    server.handle(Event::ClientMonitors { device: client }, now());

    assert!(
        server.desk.locate(server.cursor()).is_some(),
        "the cursor ended up at {:?}, which is on no monitor",
        server.cursor()
    );
}

#[test]
fn a_machine_arriving_is_told_to_let_go_of_everything() {
    // It may have been holding keys when its last session ended.
    let (mut server, _, _) = two_machines(Settings::default());
    let newcomer = dev(7);
    let actions = server.handle(Event::ClientUp { device: newcomer }, now());
    assert_eq!(sent_to(&actions, newcomer), vec![&ServerControl::ReleaseAll]);
}

#[test]
fn the_configured_arrangement_is_used_where_it_applies() {
    let local = dev(1);
    let mut server = Server::new(local, &Vec::new(), Settings::default());

    // The machine underneath is placed by name; the one above is named by
    // `primary`, because its own identifier is a device path nobody would
    // want to write down.
    server.set_placements(vec![
        Placement {
            machine: "server".into(),
            monitor: "primary".into(),
            global: Rect::new(640, 0, 1920, 1080),
        },
        Placement {
            machine: "desk".into(),
            monitor: "DP-2".into(),
            global: Rect::new(0, 1080, 2560, 1440),
        },
        Placement {
            machine: "desk".into(),
            monitor: "DP-0".into(),
            global: Rect::new(2560, 1080, 2560, 1440),
        },
    ]);
    let monitor = |id: &str, x: i32, primary: bool| Monitor {
        id: id.to_string(),
        local: Rect::new(x, 0, 2560, 1440),
        primary,
    };
    let own = vec![monitor("\\\\?\\DISPLAY#LONG#PATH", 0, true)];
    let theirs = vec![monitor("DP-2", 0, true), monitor("DP-0", 2560, false)];
    let at = |monitor: &str, x: i32, y: i32, w: i32, h: i32| Placed {
        monitor: monitor.to_string(),
        global: Rect::new(x, y, w, h),
    };
    assert_eq!(
        server.apply_placements(&"server".to_string(), &own),
        vec![at("\\\\?\\DISPLAY#LONG#PATH", 640, 0, 1920, 1080)]
    );
    assert_eq!(
        server.apply_placements(&"desk".to_string(), &theirs),
        vec![at("DP-2", 0, 1080, 2560, 1440), at("DP-0", 2560, 1080, 2560, 1440)]
    );
    // A machine the arrangement does not mention is left to be placed.
    assert!(server.apply_placements(&"laptop".to_string(), &own).is_empty());
}

#[test]
fn how_a_machine_stands_is_known() {
    let (mut server, _, client) = two_machines(Settings::default());
    assert_eq!(server.server.client_health(client), Some(Health::Ready));
    let reason = SuspendReason::Locked;
    server.handle(Event::ClientSuspended { device: client, reason }, now());
    assert_eq!(server.server.client_health(client), Some(Health::Suspended));
    server.handle(Event::ClientDown { device: client }, now());
    assert_eq!(server.server.client_health(client), None);
}

#[test]
fn what_is_held_is_known_in_order() {
    let (mut server, _, _) = two_machines(Settings::default());
    for key in [LEFT_CTRL, A] {
        server.handle(Event::Key { key, down: true, repeat: false }, now());
    }
    assert_eq!(server.server.held_keys(), vec![A, LEFT_CTRL]);
    server.handle(Event::Key { key: A, down: false, repeat: false }, now());
    assert_eq!(server.server.held_keys(), vec![LEFT_CTRL]);
    let button = MouseButton::Left;
    server.handle(Event::Button { button, down: true }, now());
    assert_eq!(server.server.held_buttons(), vec![MouseButton::Left]);
}

#[test]
fn a_changed_configuration_is_taken_into_use() {
    let (mut server, local, client) = two_machines(Settings::default());
    let settings = Settings { switch_delay: SECOND, ..Settings::default() };
    server.server.reconfigure(Vec::new(), settings);
    centre(&mut server);
    server.handle(Event::PointerBy { dx: 1000, dy: 0 }, now());
    assert_eq!(server.active(), local, "the edge has to be leaned on now");
    server.handle(Event::Tick, now() + 2 * SECOND);
    assert_eq!(server.active(), client);
}

#[test]
fn a_display_change_does_not_put_the_cursor_on_a_machine_that_cannot_act() {
    let (mut server, local, client) = two_machines(Settings::default());
    centre(&mut server);
    server.handle(
        Event::ClientSuspended { device: client, reason: SuspendReason::Locked },
        now(),
    );
    let before = server.cursor();
    // This machine's displays go, and what is nearest the cursor is the other's.
    server.desk.cells.retain(|cell| cell.device != local);
    let actions = server.handle(Event::ClientMonitors { device: local }, now());
    assert!(actions.is_empty(), "{actions:?}");
    assert_eq!(server.active(), local);
    assert_eq!(server.cursor(), before);

    // Once it can act again it is where the cursor goes.
    server.handle(Event::ClientResumed { device: client }, now());
    let actions = server.handle(Event::ClientMonitors { device: client }, now());
    assert_eq!(server.active(), client);
    assert!(matches!(sent_to(&actions, client)[..], [ServerControl::Enter { .. }]));
}
