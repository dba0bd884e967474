//! A server and a client wired together.
//!
//! Messages are handed straight from one to the other rather than through a
//! socket, and the client's work goes to a recording screen. What is left is
//! the behaviour: the cursor crosses, input lands on the far machine, and what
//! is held gets let go of at the right moments.

use smkvm::client::{Client, ClientAction, Outcome, Response, Work};
use smkvm::control::{ClientControl, Key, MouseButton, Scroll, ServerControl, SuspendReason};
use smkvm::layout::{Cell, DeviceId, Located, Motion, Point, Rect, Settled};
use smkvm::server::{Action, Event, Question, Server, Settings, Sight};

const A: Key = Key(0x04);
const LEFT_CTRL: Key = Key(0xE0);
const LEFT_ALT: Key = Key(0xE2);

fn dev(n: u8) -> DeviceId {
    DeviceId::from_bytes([n; 32])
}

/// A desktop on which every screen shows its own pixels one for one.
struct Desk {
    cells: Vec<Cell>,
}

impl Desk {
    fn place(&mut self, device: DeviceId, local: Rect, at: Point) {
        self.cells.retain(|c| c.device != device);
        let global = Rect::new(at.x, at.y, local.w, local.h);
        self.cells.push(Cell { device, local, global });
    }

    fn locate(&self, p: Point) -> Option<Located> {
        self.cells.iter().find(|c| c.global.contains(p)).map(|c| Located {
            device: c.device,
            local: Point::new(p.x - c.global.x + c.local.x, p.y - c.global.y + c.local.y),
        })
    }

    /// The nearest position that is on a screen.
    fn nearest(&self, p: Point) -> Option<Point> {
        self.cells
            .iter()
            .map(|c| c.global.clamp_point(p))
            .min_by_key(|q| (i64::from(q.x - p.x)).pow(2) + (i64::from(q.y - p.y)).pow(2))
    }

    fn resolve(&self, from: Point, dx: i32, dy: i32) -> Option<Motion> {
        let to = Point::new(from.x + dx, from.y + dy);
        let global = self.nearest(to)?;
        let located = self.locate(global)?;
        Some(Motion { global, located, adjusted: global != to })
    }

    /// What the server gets to see: the screens, and what it asks about them.
    fn sight(&self, server: &Server, event: &Event, now: u64) -> Sight {
        let mut sight = Sight {
            cells: self.cells.clone(),
            motion: None,
            mapped: None,
            located: None,
            snapped: None,
        };
        let first = server.first_question(event, &self.cells, now);
        self.answer(first, &mut sight);
        let second = server.second_question(&self.cells, sight.motion, now);
        self.answer(second, &mut sight);
        sight
    }

    fn answer(&self, question: Question, sight: &mut Sight) {
        match question {
            Question::Nothing => {}
            Question::Resolve { from, dx, dy } => sight.motion = self.resolve(from, dx, dy),
            Question::ToDesktop { local, global, at } => {
                sight.mapped =
                    Some(Point::new(at.x - local.x + global.x, at.y - local.y + global.y));
            }
            Question::Locate(at) => sight.located = self.locate(at),
            Question::Snap(at) => {
                sight.snapped = self
                    .nearest(at)
                    .and_then(|p| self.locate(p).map(|located| Settled { global: p, located }));
            }
        }
    }
}

/// A pretended screen: what was done on it, and what is held there.
#[derive(Default)]
struct Screen {
    done: Vec<Work>,
    keys: Vec<Key>,
    buttons: Vec<MouseButton>,
}

impl Screen {
    fn perform(&mut self, work: Vec<Work>) {
        for piece in work {
            match &piece {
                Work::Key { key, down } => {
                    self.keys.retain(|k| k != key);
                    if *down {
                        self.keys.push(*key);
                    }
                }
                Work::Button { button, down } => {
                    self.buttons.retain(|b| b != button);
                    if *down {
                        self.buttons.push(*button);
                    }
                }
                Work::Sync { pressed, buttons } => {
                    self.keys = pressed.clone();
                    self.buttons = buttons.clone();
                }
                Work::ReleaseAll => {
                    self.keys.clear();
                    self.buttons.clear();
                }
                _ => {}
            }
            self.done.push(piece);
        }
    }

    fn held_keys(&self) -> Vec<Key> {
        let mut keys = self.keys.clone();
        keys.sort_by_key(|k| k.0);
        keys
    }

    fn is_holding_anything(&self) -> bool {
        !self.keys.is_empty() || !self.buttons.is_empty()
    }
}

/// The server's screen on the left, the client's on the right, joined at
/// global x = 1920.
struct Wired {
    server: Server,
    desk: Desk,
    client: Client,
    screen: Screen,
    client_id: DeviceId,
}

impl Wired {
    fn new() -> Self {
        let (local, client_id) = (dev(1), dev(2));
        let mut desk = Desk { cells: Vec::new() };
        desk.place(local, Rect::new(0, 0, 1920, 1080), Point::new(0, 0));

        let mut wired = Wired {
            server: Server::new(local, &desk.cells, Settings::default()),
            desk,
            client: Client::new(),
            screen: Screen::default(),
            client_id,
        };

        // The client connects and says what it has, exactly as it would over a
        // real link.
        wired.feed(Event::ClientUp { device: client_id });
        wired.desk.place(client_id, Rect::new(0, 0, 1920, 1080), Point::new(1920, 0));
        wired.feed(Event::ClientMonitors { device: client_id });
        wired.clear();
        wired
    }

    fn through_server(&mut self, event: Event) -> Vec<Action> {
        let sight = self.desk.sight(&self.server, &event, 0);
        self.server.handle(event, &sight, 0)
    }

    /// Do what the client asked for, and hand on what it said.
    fn carry_out(&mut self, response: Response) -> Vec<ClientAction> {
        self.screen.perform(response.work);
        response.replies
    }

    /// Run one event through the server, delivering anything it produces.
    fn feed(&mut self, event: Event) {
        for action in self.through_server(event) {
            let Action::Send { to, msg } = action else {
                continue;
            };
            if to != self.client_id {
                continue;
            }
            let response = self.client.handle(msg);
            for reply in self.carry_out(response) {
                let ClientAction::Send(reply) = reply;
                match reply {
                    ClientControl::Suspended { reason } => self.later(Event::ClientSuspended {
                        device: self.client_id,
                        reason,
                    }),
                    ClientControl::Resumed => self.later(Event::ClientResumed {
                        device: self.client_id,
                    }),
                    _ => {}
                }
            }
        }
    }

    /// Feed something back to the server without recursing into delivery.
    fn later(&mut self, event: Event) {
        let _ = self.through_server(event);
    }

    fn cross_to_client(&mut self) {
        self.feed(Event::PointerBy { dx: 960, dy: 540 });
        self.feed(Event::PointerBy { dx: 1000, dy: 0 });
        assert_eq!(self.server.active(), self.client_id, "did not cross");
    }

    fn injected(&self) -> &Vec<Work> {
        &self.screen.done
    }

    fn clear(&mut self) {
        self.screen.done.clear();
    }
}

#[test]
fn the_cursor_crosses_and_lands_on_the_other_machine() {
    let mut w = Wired::new();
    w.cross_to_client();

    assert!(w.client.is_active());
    assert_eq!(
        w.injected().first(),
        Some(&Work::MoveTo { x: 40, y: 540 }),
        "arriving must put the pointer where the server says: {:?}",
        w.injected()
    );
}

#[test]
fn typing_reaches_the_machine_holding_the_cursor() {
    let mut w = Wired::new();
    w.cross_to_client();
    w.clear();

    w.feed(Event::Key {
        key: A,
        down: true,
        repeat: false,
    });
    w.feed(Event::Key {
        key: A,
        down: false,
        repeat: false,
    });
    w.feed(Event::Button {
        button: MouseButton::Left,
        down: true,
    });
    w.feed(Event::Button {
        button: MouseButton::Left,
        down: false,
    });
    w.feed(Event::Wheel(Scroll::new(0, -Scroll::NOTCH)));
    w.feed(Event::PointerBy { dx: 10, dy: 10 });

    let injected = w.injected();
    assert!(injected.contains(&Work::Key { key: A, down: true }));
    assert!(injected.contains(&Work::Key {
        key: A,
        down: false
    }));
    assert!(injected.contains(&Work::Button {
        button: MouseButton::Left,
        down: true
    }));
    assert!(injected.contains(&Work::Wheel(Scroll::new(0, -Scroll::NOTCH))));
    assert!(injected
        .iter()
        .any(|e| matches!(e, Work::MoveTo { .. })));
}

#[test]
fn a_chord_begun_here_continues_there() {
    let mut w = Wired::new();
    w.feed(Event::PointerBy { dx: 960, dy: 540 });

    // Ctrl goes down on the server, then the cursor leaves mid-chord.
    w.feed(Event::Key {
        key: LEFT_CTRL,
        down: true,
        repeat: false,
    });
    w.clear();
    w.feed(Event::PointerBy { dx: 1000, dy: 0 });

    assert_eq!(
        w.screen.held_keys(),
        vec![LEFT_CTRL],
        "the modifier must arrive with the cursor"
    );
    // And the key that completes the chord lands modified.
    w.feed(Event::Key {
        key: A,
        down: true,
        repeat: false,
    });
    assert_eq!(w.screen.held_keys(), vec![A, LEFT_CTRL]);
}

#[test]
fn leaving_makes_the_client_let_go_of_everything() {
    let mut w = Wired::new();
    w.cross_to_client();
    w.feed(Event::Key {
        key: LEFT_ALT,
        down: true,
        repeat: false,
    });
    w.feed(Event::Button {
        button: MouseButton::Left,
        down: true,
    });
    assert!(w.screen.is_holding_anything());

    w.feed(Event::PointerBy { dx: -2000, dy: 0 });

    assert!(!w.client.is_active());
    assert!(
        !w.screen.is_holding_anything(),
        "the machine left behind is still holding {:?}",
        w.screen.held_keys()
    );
}

#[test]
fn a_dropped_link_mid_chord_does_not_strand_a_key() {
    // Nothing can arrive to release what is held, so the client must do it
    // on its own. This is the commonest way a key gets stranded.
    let mut w = Wired::new();
    w.cross_to_client();
    w.feed(Event::Key {
        key: LEFT_ALT,
        down: true,
        repeat: false,
    });
    w.feed(Event::Key {
        key: Key(0x2B),
        down: true,
        repeat: false,
    });
    assert_eq!(w.screen.held_keys().len(), 2);

    let response = w.client.disconnected();
    w.carry_out(response);
    w.feed(Event::ClientDown {
        device: w.client_id,
    });

    assert!(!w.screen.is_holding_anything());
    assert!(!w.client.is_active());
    // And the server has the cursor back.
    assert_ne!(w.server.active(), w.client_id);
}

#[test]
fn a_client_that_cannot_act_says_so_and_the_cursor_comes_home() {
    // The Windows secure-desktop case, end to end.
    let mut w = Wired::new();
    w.cross_to_client();

    let response = w.client.suspend(SuspendReason::SecureDesktop);
    let replies = w.carry_out(response);
    assert_eq!(
        replies,
        vec![ClientAction::Send(ClientControl::Suspended {
            reason: SuspendReason::SecureDesktop
        })]
    );
    w.feed(Event::ClientSuspended {
        device: w.client_id,
        reason: SuspendReason::SecureDesktop,
    });

    assert_ne!(w.server.active(), w.client_id, "the cursor came home");
    assert!(!w.screen.is_holding_anything());

    // Pushing at the edge does not send it back while the prompt is up.
    w.feed(Event::PointerBy { dx: 5000, dy: 0 });
    assert_ne!(w.server.active(), w.client_id);

    // Once the prompt is gone it is reachable again.
    let response = w.client.resume();
    w.carry_out(response);
    w.feed(Event::ClientResumed {
        device: w.client_id,
    });
    w.feed(Event::PointerBy { dx: 5000, dy: 0 });
    assert_eq!(w.server.active(), w.client_id);
}

#[test]
fn input_aimed_at_a_suspended_client_is_not_injected() {
    let mut w = Wired::new();
    w.cross_to_client();
    let response = w.client.suspend(SuspendReason::Locked);
    w.carry_out(response);
    w.clear();

    // Even if the server were to keep sending, nothing may reach the screen.
    let response = w.client.handle(ServerControl::MoveTo { x: 5, y: 5 });
    w.carry_out(response);
    let response = w.client.handle(ServerControl::KeyEvent { key: A, down: true, repeat: false });
    w.carry_out(response);
    assert!(w.injected().is_empty(), "{:?}", w.injected());

    // But being told to let go is always obeyed.
    w.screen.perform(vec![Work::Key { key: A, down: true }]);
    let response = w.client.handle(ServerControl::ReleaseAll);
    w.carry_out(response);
    assert!(!w.screen.is_holding_anything());
}

#[test]
fn a_ping_is_answered() {
    let mut w = Wired::new();
    let response = w.client.handle(ServerControl::Ping { id: 7 });
    assert_eq!(
        w.carry_out(response),
        vec![ClientAction::Send(ClientControl::Pong { id: 7 })]
    );
}

#[test]
fn a_refusal_is_kept_until_somebody_asks() {
    let mut w = Wired::new();
    w.cross_to_client();
    let work = Work::MoveTo { x: 1, y: 1 };
    w.client.note(&work, Outcome::Refused("no".to_string()));
    assert_eq!(w.client.take_refusal().as_deref(), Some("no"));
    assert_eq!(w.client.take_refusal(), None);
    // A key the platform has no way to send is no sign of anything else.
    let key = Work::Key { key: A, down: true };
    w.client.note(&key, Outcome::Unmapped("no such key".to_string()));
    assert_eq!(w.client.take_refusal(), None);
    w.client.note(&key, Outcome::Done);
    assert!(!w.client.is_suspended());
}
