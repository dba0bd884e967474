//! The server: the machine holding the keyboard and mouse.
//!
//! The server owns one authoritative position on the desktop that the machines
//! share. Every movement of the physical pointer runs through it, and it
//! answers with what should happen: inject here, send there, start or stop
//! swallowing local input.
//!
//! Nothing here talks to a socket, a display server, or a clock of its own.
//! Where screens lie next to each other is for the arrangement to say: the
//! server says what it wants to know ([`Server::first_question`] and
//! [`Server::second_question`]), and is handed the answers with the event, as
//! what can be seen of the desktop at that moment ([`Sight`]). Events go in
//! with a timestamp and actions come out.

use vstd::prelude::*;

use crate::control::{Key, MouseButton, Scroll, ServerControl, ServerControlView, SuspendReason};
use crate::layout::{Cell, DeviceId, Located, Monitor, MonitorView, Motion, Point, Rect, Settled};
use crate::order::Alike;
use crate::table::{
    ascending, erased, keyed, stored, value_of, with_item, without_item, OrderedSet, Table,
};

verus! {

/// How the server should be reading the local pointer.
///
/// While the cursor is on the server's own screen the operating system moves
/// it and the server simply follows along. Once it leaves, local input is
/// swallowed and the pointer is driven by relative motion instead, because
/// there is no longer any local position for it to have.
#[derive(Debug, Clone, Copy, PartialEq, Eq, Structural)]
pub enum PointerMode {
    /// The cursor is here. Let input through and follow the pointer.
    Local,
    /// The cursor is on another machine. Swallow local input, confine the
    /// pointer, and report relative motion.
    Captured,
}

/// Things that happen to the server.
#[derive(Debug, Clone, Copy, PartialEq)]
pub enum Event {
    /// Where the real local pointer is, in the server's own coordinates.
    ///
    /// Only meaningful while the cursor is here, and only ever used to keep
    /// the tracked position in step with the one the operating system is
    /// drawing. Pointer acceleration means raw motion and actual movement
    /// differ, so without this they would slowly drift apart.
    PointerAt { x: i32, y: i32 },
    /// Raw pointer motion, before the operating system clamps it.
    ///
    /// This is what decides crossings, in both modes. Once the real pointer is
    /// pinned against a screen edge its position stops changing however hard
    /// the user pushes, so the position alone can never reveal the intent to
    /// leave. The raw delta still does.
    PointerBy { dx: i32, dy: i32 },
    Button { button: MouseButton, down: bool },
    Wheel(Scroll),
    Key { key: Key, down: bool, repeat: bool },
    /// A machine finished its handshake.
    ClientUp { device: DeviceId },
    /// A machine reported its displays, and the arrangement has taken them in.
    ClientMonitors { device: DeviceId },
    /// A machine's link went away.
    ClientDown { device: DeviceId },
    /// A machine cannot accept input for the moment.
    ClientSuspended { device: DeviceId, reason: SuspendReason },
    ClientResumed { device: DeviceId },
    /// Nothing happened, but time passed. Drives the edge-hold timing.
    Tick,
}

/// What the server's own machine should do.
#[derive(Debug, Clone, Copy, PartialEq, Eq)]
pub enum LocalAction {
    /// Start or stop swallowing input and confining the pointer.
    SetPointerMode(PointerMode),
    /// Put the local pointer here, in the server's own coordinates.
    WarpCursor { x: i32, y: i32 },
    /// Release everything held locally.
    ReleaseAll,
}

#[derive(Debug, Clone, PartialEq)]
pub enum Action {
    Send { to: DeviceId, msg: ServerControl },
    Local(LocalAction),
}

#[verifier::ext_equal]
pub enum ActionView {
    Send { to: DeviceId, msg: ServerControlView },
    Local(LocalAction),
}

impl DeepView for Action {
    type V = ActionView;

    open spec fn deep_view(&self) -> ActionView {
        match self {
            Action::Send { to, msg } => ActionView::Send { to: *to, msg: msg.deep_view() },
            Action::Local(local) => ActionView::Local(*local),
        }
    }
}

/// Where the configuration says a monitor belongs.
///
/// Machines are named rather than identified by key, because a layout is
/// written before anything has been paired and has to survive a machine being
/// replaced. A monitor is named by its own identifier, or by `primary` for the
/// common case of a machine with one screen, whose identifier is a long device
/// path nobody wants to type.
#[derive(Debug, Clone, PartialEq, Eq)]
pub struct Placement {
    pub machine: String,
    pub monitor: String,
    pub global: Rect,
}

#[verifier::ext_equal]
pub struct PlacementView {
    pub machine: Seq<char>,
    pub monitor: Seq<char>,
    pub global: Rect,
}

impl DeepView for Placement {
    type V = PlacementView;

    open spec fn deep_view(&self) -> PlacementView {
        PlacementView {
            machine: self.machine@,
            monitor: self.monitor@,
            global: self.global,
        }
    }
}

/// A monitor put where the configuration says.
#[derive(Debug, PartialEq, Eq)]
pub struct Placed {
    pub monitor: String,
    pub global: Rect,
}

#[verifier::ext_equal]
pub struct PlacedView {
    pub monitor: Seq<char>,
    pub global: Rect,
}

impl DeepView for Placed {
    type V = PlacedView;

    open spec fn deep_view(&self) -> PlacedView {
        PlacedView { monitor: self.monitor@, global: self.global }
    }
}

/// Switching behaviour, from the configuration file, in nanoseconds.
#[derive(Debug, Clone, Copy, PartialEq, Eq)]
pub struct Settings {
    /// How long the pointer must rest against an edge before it crosses.
    pub switch_delay: u64,
    /// When set, an edge must be struck twice within this window to cross.
    pub switch_double_tap: u64,
}

impl Default for Settings {
    fn default() -> (r: Settings)
        ensures
            r == (Settings { switch_delay: 0, switch_double_tap: 0 }),
    {
        Settings { switch_delay: 0, switch_double_tap: 0 }
    }
}

#[derive(Debug, Clone, Copy, PartialEq, Eq, Structural)]
pub enum Health {
    Ready,
    /// Connected but unable to act on input, so the cursor must stay away.
    Suspended,
}

impl DeepView for Health {
    type V = Health;

    open spec fn deep_view(&self) -> Health {
        *self
    }
}

/// A pointer pressed against an edge that it has not yet been allowed through.
#[derive(Debug, Clone, Copy)]
pub struct Pending {
    pub target: DeviceId,
    pub since: u64,
    /// Where the cursor would land once it is let through.
    pub at: Point,
}

/// A strike against an edge.
#[derive(Debug, Clone, Copy)]
pub struct Tap {
    pub when: u64,
    pub device: DeviceId,
}

/// What the server wants to know of the arrangement.
#[derive(Debug, Clone, Copy, PartialEq)]
pub enum Question {
    Nothing,
    /// Where does moving the cursor from here take it?
    Resolve { from: Point, dx: i32, dy: i32 },
    /// Where on the desktop is this position of this screen?
    ToDesktop { local: Rect, global: Rect, at: Point },
    /// Whose screen is this position on?
    Locate(Point),
    /// What is the nearest position that is on a screen?
    Snap(Point),
}

/// What can be seen of the desktop at the moment of an event: its screens, and
/// the answers to what the server asked.
#[derive(Debug)]
pub struct Sight {
    pub cells: Vec<Cell>,
    pub motion: Option<Motion>,
    pub mapped: Option<Point>,
    pub located: Option<Located>,
    pub snapped: Option<Settled>,
}

#[verifier::ext_equal]
pub struct SightView {
    pub cells: Seq<Cell>,
    pub motion: Option<Motion>,
    pub mapped: Option<Point>,
    pub located: Option<Located>,
    pub snapped: Option<Settled>,
}

impl View for Sight {
    type V = SightView;

    open spec fn view(&self) -> SightView {
        SightView {
            cells: self.cells@,
            motion: self.motion,
            mapped: self.mapped,
            located: self.located,
            snapped: self.snapped,
        }
    }
}

/// Every screen is a rectangle with something in it.
pub open spec fn proper(cells: Seq<Cell>) -> bool {
    forall|i: int| 0 <= i < cells.len() ==> (#[trigger] cells[i]).proper()
}

/// How long it has been, in nanoseconds.
pub open spec fn elapsed(now: u64, since: u64) -> int {
    if now >= since {
        now - since
    } else {
        0
    }
}

/// The first screen that is as wanted.
pub open spec fn first_cell(cells: Seq<Cell>, wanted: spec_fn(Cell) -> bool) -> Option<Cell>
    decreases cells.len(),
{
    if cells.len() == 0 {
        None
    } else if wanted(cells[0]) {
        Some(cells[0])
    } else {
        first_cell(cells.drop_first(), wanted)
    }
}

pub open spec fn screen_of(device: DeviceId) -> spec_fn(Cell) -> bool {
    |c: Cell| c.device == device
}

/// A machine's screen that shows this position of the desktop.
pub open spec fn screen_at(device: DeviceId, p: Point) -> spec_fn(Cell) -> bool {
    |c: Cell| c.device == device && c.global.has(p)
}

/// A machine's screen that has this position in the machine's own coordinates.
pub open spec fn screen_holding(device: DeviceId, p: Point) -> spec_fn(Cell) -> bool {
    |c: Cell| c.device == device && c.local.has(p)
}

/// The name that stands for whichever monitor the system calls primary.
pub open spec fn primary_name() -> Seq<char> {
    "primary"@
}

/// The monitor a placement means: the first that has its name, or is primary
/// where that is what it asks for.
pub open spec fn meant(p: PlacementView, monitors: Seq<MonitorView>) -> Option<Seq<char>>
    decreases monitors.len(),
{
    if monitors.len() == 0 {
        None
    } else if monitors[0].id == p.monitor || (p.monitor == primary_name()
        && monitors[0].primary) {
        Some(monitors[0].id)
    } else {
        meant(p, monitors.drop_first())
    }
}

/// Where the configuration puts a machine's monitors, in the order in which it
/// says so.
pub open spec fn placed(
    placements: Seq<PlacementView>,
    name: Seq<char>,
    monitors: Seq<MonitorView>,
) -> Seq<PlacedView>
    decreases placements.len(),
{
    if placements.len() == 0 {
        seq![]
    } else {
        let p = placements.last();
        let before = placed(placements.drop_last(), name, monitors);
        if p.machine == name && meant(p, monitors) is Some {
            before.push(PlacedView { monitor: meant(p, monitors)->0, global: p.global })
        } else {
            before
        }
    }
}

/// Everything the server keeps track of.
#[verifier::ext_equal]
pub struct ServerView {
    pub local: DeviceId,
    pub settings: Settings,
    /// The authoritative cursor position on the desktop.
    pub cursor: Point,
    /// Which machine currently has the cursor.
    pub active: DeviceId,
    pub mode: PointerMode,
    pub clients: Seq<(DeviceId, Health)>,
    /// The keys held down, ascending.
    pub keys: Seq<Key>,
    pub buttons: Seq<MouseButton>,
    pub pending: Option<Pending>,
    /// When the edge was last struck, for double-tap.
    pub last_tap: Option<Tap>,
    /// The arrangement the configuration asks for.
    pub placements: Seq<PlacementView>,
}

/// The state that follows, and what is to be done.
pub struct Step {
    pub after: ServerView,
    pub out: Seq<ActionView>,
}

pub open spec fn warp_to(p: Point) -> ActionView {
    ActionView::Local(LocalAction::WarpCursor { x: p.x, y: p.y })
}

pub open spec fn set_mode(mode: PointerMode) -> ActionView {
    ActionView::Local(LocalAction::SetPointerMode(mode))
}

impl ServerView {
    pub open spec fn still(self) -> Step {
        Step { after: self, out: seq![] }
    }

    /// Whether a machine can take the cursor.
    pub open spec fn usable(self, device: DeviceId) -> bool {
        device == self.local || value_of(self.clients, device) == Some(Health::Ready)
    }

    /// Input is swallowed exactly while the cursor is elsewhere, and a cursor
    /// waits only for a machine it is not on.
    pub open spec fn coherent(self) -> bool {
        &&& (self.mode is Local) == (self.active == self.local)
        &&& self.pending is Some ==> self.pending->0.target != self.active
        &&& keyed(self.clients)
        &&& ascending::<Key>(self.keys)
        &&& ascending::<MouseButton>(self.buttons)
    }

    /// Tell whoever is at this position that the cursor is there. The
    /// operating system already moves a pointer that is at home; warping it to
    /// where it already is would fight the user.
    pub open spec fn deliver(self, located: Located) -> Step {
        Step {
            after: self,
            out: if located.device != self.local {
                seq![
                    ActionView::Send {
                        to: located.device,
                        msg: ServerControlView::MoveTo {
                            x: located.local.x,
                            y: located.local.y,
                        },
                    },
                ]
            } else if self.mode is Captured {
                seq![warp_to(located.local)]
            } else {
                seq![]
            },
        }
    }

    /// Hand the cursor to another machine. The one being left lets go of what
    /// it holds; the one it arrives on is given the input state as it stands,
    /// so a chord begun elsewhere continues here and nothing stale survives.
    pub open spec fn cross_to(self, target: DeviceId, global: Point, located: Located) -> Step {
        let leave = if self.active == self.local {
            set_mode(PointerMode::Captured)
        } else {
            ActionView::Send { to: self.active, msg: ServerControlView::Leave }
        };
        let arrive = if target == self.local {
            seq![set_mode(PointerMode::Local), warp_to(located.local)]
        } else {
            seq![
                ActionView::Send {
                    to: target,
                    msg: ServerControlView::Enter {
                        at: located.local,
                        pressed: self.keys,
                        buttons: self.buttons,
                    },
                },
            ]
        };
        Step {
            after: ServerView {
                pending: None,
                last_tap: None,
                cursor: global,
                active: target,
                mode: if target == self.local {
                    PointerMode::Local
                } else {
                    PointerMode::Captured
                },
                ..self
            },
            out: seq![leave] + arrive,
        }
    }

    /// Where a cursor that is not let through stops: as close to `beyond` as
    /// the screen it is on allows, if that is not where it is already.
    pub open spec fn stop_point(self, cells: Seq<Cell>, beyond: Point) -> Option<Point> {
        let here = first_cell(cells, screen_at(self.active, self.cursor));
        let cell = if here is Some {
            here
        } else {
            first_cell(cells, screen_of(self.active))
        };
        if cell is Some && cell->0.global.nearest(beyond) != self.cursor {
            Some(cell->0.global.nearest(beyond))
        } else {
            None
        }
    }

    pub open spec fn stop_at_edge(self, beyond: Point, sight: SightView) -> Step {
        match self.stop_point(sight.cells, beyond) {
            None => self.still(),
            Some(at) => {
                let moved = ServerView { cursor: at, ..self };
                match sight.located {
                    Some(located) => moved.deliver(located),
                    None => moved.still(),
                }
            },
        }
    }

    /// Whether the edge to a machine was struck a moment ago.
    pub open spec fn struck_twice(self, target: DeviceId, now: u64) -> bool {
        self.last_tap is Some && self.last_tap->0.device == target && elapsed(
            now,
            self.last_tap->0.when,
        ) <= self.settings.switch_double_tap
    }

    /// Is the cursor allowed through the edge it is pressed against? A second
    /// strike within the window goes straight through; with a delay, an edge
    /// held long enough gives way; with neither, every edge does.
    pub open spec fn may_cross(self, target: DeviceId, now: u64) -> bool {
        ||| self.settings.switch_double_tap != 0 && self.struck_twice(target, now)
        ||| self.settings.switch_double_tap == 0 && self.settings.switch_delay == 0
        ||| self.settings.switch_delay != 0 && self.pending is Some && self.pending->0.target
            == target && elapsed(now, self.pending->0.since) >= self.settings.switch_delay
    }

    /// The strike is remembered, where strikes count.
    pub open spec fn struck(self, target: DeviceId, now: u64) -> ServerView {
        if self.settings.switch_double_tap != 0 {
            ServerView { last_tap: Some(Tap { when: now, device: target }), ..self }
        } else {
            self
        }
    }

    /// The cursor waits at an edge, from when it first came there.
    pub open spec fn hold_at_edge(self, target: DeviceId, at: Point, now: u64) -> ServerView {
        let since = if self.pending is Some && self.pending->0.target == target {
            self.pending->0.since
        } else {
            now
        };
        ServerView { pending: Some(Pending { target, since, at }), ..self }
    }

    /// The pointer moved. A machine that cannot take the cursor is a wall:
    /// better that than a pointer that disappears onto a screen that will not
    /// move it.
    pub open spec fn pointer_by(self, sight: SightView, now: u64) -> Step {
        match sight.motion {
            None => self.still(),
            Some(motion) => {
                let target = motion.located.device;
                if target == self.active {
                    ServerView { pending: None, cursor: motion.global, ..self }.deliver(
                        motion.located,
                    )
                } else if !self.usable(target) {
                    ServerView { pending: None, ..self }.stop_at_edge(motion.global, sight)
                } else if self.may_cross(target, now) {
                    self.struck(target, now).cross_to(target, motion.global, motion.located)
                } else {
                    self.struck(target, now).hold_at_edge(target, motion.global, now).stop_at_edge(
                        motion.global,
                        sight,
                    )
                }
            },
        }
    }

    /// Keep the tracked cursor in step with the real one. Never crosses.
    pub open spec fn pointer_at(self, x: i32, y: i32, sight: SightView) -> Step {
        if self.mode is Local && self.active == self.local && first_cell(
            sight.cells,
            screen_holding(self.local, Point { x, y }),
        ) is Some && sight.mapped is Some {
            ServerView { cursor: sight.mapped->0, ..self }.still()
        } else {
            self.still()
        }
    }

    /// Whether a waiting cursor has held its edge long enough.
    pub open spec fn due(self, now: u64) -> bool {
        self.pending is Some && self.settings.switch_delay != 0 && elapsed(
            now,
            self.pending->0.since,
        ) >= self.settings.switch_delay
    }

    /// Let a waiting cursor through once its edge has been held long enough.
    pub open spec fn settle_pending(self, sight: SightView, now: u64) -> Step {
        if !self.due(now) {
            self.still()
        } else if !self.usable(self.pending->0.target) || sight.located is None {
            ServerView { pending: None, ..self }.still()
        } else {
            self.cross_to(self.pending->0.target, self.pending->0.at, sight.located->0)
        }
    }

    /// Bring the cursor back to the server's own screen.
    pub open spec fn recall(self, sight: SightView) -> Step {
        let home = first_cell(sight.cells, screen_of(self.local));
        let back = ServerView {
            pending: None,
            last_tap: None,
            active: self.local,
            mode: PointerMode::Local,
            cursor: if home is Some {
                home->0.global.middle()
            } else {
                self.cursor
            },
            ..self
        };
        Step {
            after: back,
            out: if home is Some && sight.located is Some {
                seq![set_mode(PointerMode::Local), warp_to(sight.located->0.local)]
            } else {
                seq![set_mode(PointerMode::Local)]
            },
        }
    }

    /// A machine cannot have the cursor: nothing waits to cross to it, and if
    /// it has the cursor the cursor comes home.
    pub open spec fn withdraw(self, device: DeviceId, sight: SightView) -> Step {
        let waiting = ServerView {
            pending: if self.pending is Some && self.pending->0.target == device {
                None
            } else {
                self.pending
            },
            ..self
        };
        if self.active == device {
            waiting.recall(sight)
        } else {
            waiting.still()
        }
    }

    /// Put the cursor somewhere valid after the layout changed beneath it. A
    /// machine that cannot act does not get it: the cursor then stays.
    pub open spec fn resettle(self, sight: SightView) -> Step {
        match sight.snapped {
            None => self.still(),
            Some(at) => if at.located.device == self.active {
                ServerView { cursor: at.global, ..self }.still()
            } else if self.usable(at.located.device) {
                self.cross_to(at.located.device, at.global, at.located)
            } else {
                self.still()
            },
        }
    }

    /// What goes to the machine that has the cursor, if that is another one.
    pub open spec fn forward(self, msg: ServerControlView) -> Step {
        Step {
            after: self,
            out: if self.active != self.local {
                seq![ActionView::Send { to: self.active, msg }]
            } else {
                seq![]
            },
        }
    }

    /// What an event leads to.
    pub open spec fn step(self, event: Event, sight: SightView, now: u64) -> Step {
        match event {
            Event::PointerAt { x, y } => self.pointer_at(x, y, sight),
            Event::PointerBy { dx, dy } => self.pointer_by(sight, now),
            Event::Button { button, down } => ServerView {
                buttons: if down {
                    with_item::<MouseButton>(self.buttons, button)
                } else {
                    without_item(self.buttons, button)
                },
                ..self
            }.forward(ServerControlView::Button { button, down }),
            Event::Wheel(scroll) => self.forward(ServerControlView::Wheel(scroll)),
            Event::Key { key, down, repeat } => ServerView {
                keys: if down {
                    with_item::<Key>(self.keys, key)
                } else {
                    without_item(self.keys, key)
                },
                ..self
            }.forward(ServerControlView::KeyEvent { key, down, repeat }),
            // A machine that has just arrived may be holding keys from a
            // previous session; it starts from a known state.
            Event::ClientUp { device } => Step {
                after: ServerView {
                    clients: stored(self.clients, device, Health::Ready),
                    ..self
                },
                out: seq![
                    ActionView::Send { to: device, msg: ServerControlView::ReleaseAll },
                ],
            },
            Event::ClientMonitors { device } => ServerView {
                clients: if value_of(self.clients, device) is Some {
                    self.clients
                } else {
                    stored(self.clients, device, Health::Ready)
                },
                ..self
            }.resettle(sight),
            Event::ClientDown { device } => ServerView {
                clients: erased(self.clients, device),
                ..self
            }.withdraw(device, sight),
            Event::ClientSuspended { device, reason } => ServerView {
                clients: stored(self.clients, device, Health::Suspended),
                ..self
            }.withdraw(device, sight),
            Event::ClientResumed { device } => ServerView {
                clients: if value_of(self.clients, device) is Some {
                    stored(self.clients, device, Health::Ready)
                } else {
                    self.clients
                },
                ..self
            }.still(),
            Event::Tick => self.settle_pending(sight, now),
        }
    }

    /// What the arrangement is asked first.
    pub open spec fn first_question(self, event: Event, cells: Seq<Cell>, now: u64) -> Question {
        match event {
            Event::PointerAt { x, y } => {
                let at = Point { x, y };
                let cell = first_cell(cells, screen_holding(self.local, at));
                if self.mode is Local && self.active == self.local && cell is Some {
                    Question::ToDesktop { local: cell->0.local, global: cell->0.global, at }
                } else {
                    Question::Nothing
                }
            },
            Event::PointerBy { dx, dy } => Question::Resolve { from: self.cursor, dx, dy },
            Event::ClientMonitors { device } => Question::Snap(self.cursor),
            Event::ClientDown { device } => self.question_home(device, cells),
            Event::ClientSuspended { device, reason } => self.question_home(device, cells),
            Event::Tick => if self.due(now) && self.usable(self.pending->0.target) {
                Question::Locate(self.pending->0.at)
            } else {
                Question::Nothing
            },
            _ => Question::Nothing,
        }
    }

    /// Where the middle of the server's own screen is, if the cursor is to
    /// come home from this machine.
    pub open spec fn question_home(self, device: DeviceId, cells: Seq<Cell>) -> Question {
        let home = first_cell(cells, screen_of(self.local));
        if self.active == device && home is Some {
            Question::Locate(home->0.global.middle())
        } else {
            Question::Nothing
        }
    }

    /// What the arrangement is asked once it has said where a motion leads:
    /// where the cursor stops, if it is not let through.
    pub open spec fn second_question(
        self,
        cells: Seq<Cell>,
        motion: Option<Motion>,
        now: u64,
    ) -> Question {
        match motion {
            None => Question::Nothing,
            Some(m) => {
                let target = m.located.device;
                let stop = self.stop_point(cells, m.global);
                if target != self.active && !(self.usable(target) && self.may_cross(target, now))
                    && stop is Some {
                    Question::Locate(stop->0)
                } else {
                    Question::Nothing
                }
            },
        }
    }
}

// --- carrying it out ------------------------------------------------------

fn emit(out: &mut Vec<Action>, a: Action)
    ensures
        final(out).deep_view() == old(out).deep_view().push(a.deep_view()),
{
    let ghost before = out.deep_view();
    let ghost added = a.deep_view();
    out.push(a);
    assert(out.deep_view() =~= before.push(added));
}

fn time_since(now: u64, since: u64) -> (r: u64)
    ensures
        r == elapsed(now, since),
{
    if now >= since {
        now - since
    } else {
        0
    }
}

fn first_screen_of(cells: &Vec<Cell>, device: DeviceId) -> (r: Option<Cell>)
    ensures
        r == first_cell(cells@, screen_of(device)),
        r is Some ==> cells@.contains(r->0),
{
    let mut i: usize = 0;
    proof {
        assert(cells@.skip(0) =~= cells@);
    }
    while i < cells.len()
        invariant
            i <= cells.len(),
            first_cell(cells@, screen_of(device)) == first_cell(
                cells@.skip(i as int),
                screen_of(device),
            ),
        decreases cells.len() - i,
    {
        let cell: Cell = cells[i];
        proof {
            assert(cells@.skip(i as int)[0] == cell);
            assert(cells@.skip(i as int).drop_first() =~= cells@.skip(i + 1));
        }
        if cell.device.same(&device) {
            return Some(cell);
        }
        i += 1;
    }
    None
}

fn first_screen_at(cells: &Vec<Cell>, device: DeviceId, p: Point) -> (r: Option<Cell>)
    ensures
        r == first_cell(cells@, screen_at(device, p)),
        r is Some ==> cells@.contains(r->0),
{
    let mut i: usize = 0;
    proof {
        assert(cells@.skip(0) =~= cells@);
    }
    while i < cells.len()
        invariant
            i <= cells.len(),
            first_cell(cells@, screen_at(device, p)) == first_cell(
                cells@.skip(i as int),
                screen_at(device, p),
            ),
        decreases cells.len() - i,
    {
        let cell: Cell = cells[i];
        proof {
            assert(cells@.skip(i as int)[0] == cell);
            assert(cells@.skip(i as int).drop_first() =~= cells@.skip(i + 1));
        }
        if cell.device.same(&device) && cell.global.contains(p) {
            return Some(cell);
        }
        i += 1;
    }
    None
}

fn first_screen_holding(cells: &Vec<Cell>, device: DeviceId, p: Point) -> (r: Option<Cell>)
    ensures
        r == first_cell(cells@, screen_holding(device, p)),
{
    let mut i: usize = 0;
    proof {
        assert(cells@.skip(0) =~= cells@);
    }
    while i < cells.len()
        invariant
            i <= cells.len(),
            first_cell(cells@, screen_holding(device, p)) == first_cell(
                cells@.skip(i as int),
                screen_holding(device, p),
            ),
        decreases cells.len() - i,
    {
        let cell: Cell = cells[i];
        proof {
            assert(cells@.skip(i as int)[0] == cell);
            assert(cells@.skip(i as int).drop_first() =~= cells@.skip(i + 1));
        }
        if cell.device.same(&device) && cell.local.contains(p) {
            return Some(cell);
        }
        i += 1;
    }
    None
}

/// The monitor a placement means.
fn monitor_meant(p: &Placement, monitors: &Vec<Monitor>) -> (r: Option<usize>)
    ensures
        match r {
            Some(i) => i < monitors.len() && meant(p.deep_view(), monitors.deep_view()) == Some(
                monitors@[i as int].id@,
            ),
            None => meant(p.deep_view(), monitors.deep_view()) is None,
        },
{
    let ghost pv = p.deep_view();
    let ghost all = monitors.deep_view();
    let primary: String = "primary".to_owned();
    let by_role: bool = p.monitor.same(&primary);
    let mut i: usize = 0;
    proof {
        assert(all.skip(0) =~= all);
    }
    while i < monitors.len()
        invariant
            i <= monitors.len(),
            pv == p.deep_view(),
            all == monitors.deep_view(),
            by_role == (pv.monitor == primary_name()),
            meant(pv, all) == meant(pv, all.skip(i as int)),
        decreases monitors.len() - i,
    {
        let m: &Monitor = &monitors[i];
        proof {
            assert(all.skip(i as int)[0] == m.deep_view());
            assert(all.skip(i as int).drop_first() =~= all.skip(i + 1));
        }
        if m.id.same(&p.monitor) || (by_role && m.primary) {
            return Some(i);
        }
        i += 1;
    }
    None
}

#[derive(Debug)]
pub struct Server {
    local: DeviceId,
    settings: Settings,
    cursor: Point,
    active: DeviceId,
    mode: PointerMode,
    clients: Table<DeviceId, Health>,
    keys: OrderedSet<Key>,
    buttons: OrderedSet<MouseButton>,
    pending: Option<Pending>,
    last_tap: Option<Tap>,
    /// Applied as each machine reports what it has; anything not mentioned is
    /// placed automatically.
    placements: Vec<Placement>,
}

impl View for Server {
    type V = ServerView;

    closed spec fn view(&self) -> ServerView {
        ServerView {
            local: self.local,
            settings: self.settings,
            cursor: self.cursor,
            active: self.active,
            mode: self.mode,
            clients: self.clients.entries(),
            keys: self.keys.members(),
            buttons: self.buttons.members(),
            pending: self.pending,
            last_tap: self.last_tap,
            placements: self.placements.deep_view(),
        }
    }
}

impl Server {
    pub open spec fn wf(&self) -> bool {
        self@.coherent()
    }

    /// Start a server whose own machine is `local`, with the cursor in the
    /// corner of its first screen.
    pub fn new(local: DeviceId, cells: &Vec<Cell>, settings: Settings) -> (r: Server)
        ensures
            r.wf(),
            r@ == (ServerView {
                local,
                settings,
                cursor: match first_cell(cells@, screen_of(local)) {
                    Some(cell) => Point { x: cell.global.x, y: cell.global.y },
                    None => Point { x: 0, y: 0 },
                },
                active: local,
                mode: PointerMode::Local,
                clients: seq![],
                keys: seq![],
                buttons: seq![],
                pending: None,
                last_tap: None,
                placements: seq![],
            }),
    {
        let cursor: Point = match first_screen_of(cells, local) {
            Some(cell) => cell.global.origin(),
            None => Point::new(0, 0),
        };
        let r: Server = Server {
            local,
            settings,
            cursor,
            active: local,
            mode: PointerMode::Local,
            clients: Table::new(),
            keys: OrderedSet::new(),
            buttons: OrderedSet::new(),
            pending: None,
            last_tap: None,
            placements: Vec::new(),
        };
        assert(r.placements.deep_view() =~= seq![]);
        r
    }

    /// Use the arrangement from the configuration.
    ///
    /// Takes effect as machines report their monitors, so it can name a
    /// machine that has not connected yet, or one that never does.
    pub fn set_placements(&mut self, placements: Vec<Placement>)
        requires
            old(self).wf(),
        ensures
            final(self).wf(),
            final(self)@ == (ServerView {
                placements: placements.deep_view(),
                ..old(self)@
            }),
    {
        self.placements = placements;
    }

    /// Take a changed configuration into use.
    pub fn reconfigure(&mut self, placements: Vec<Placement>, settings: Settings)
        requires
            old(self).wf(),
        ensures
            final(self).wf(),
            final(self)@ == (ServerView {
                placements: placements.deep_view(),
                settings,
                ..old(self)@
            }),
    {
        self.placements = placements;
        self.settings = settings;
    }

    /// How a machine stands, if it is connected.
    pub fn client_health(&self, device: DeviceId) -> (r: Option<Health>)
        ensures
            r == value_of(self@.clients, device),
    {
        match self.clients.get(&device) {
            Some(health) => Some(*health),
            None => None,
        }
    }

    /// Where the configuration puts the monitors of the machine of this name.
    pub fn apply_placements(&self, name: &String, monitors: &Vec<Monitor>) -> (r: Vec<Placed>)
        ensures
            r.deep_view() == placed(self@.placements, name@, monitors.deep_view()),
    {
        let ghost all = self.placements.deep_view();
        let ghost mv = monitors.deep_view();
        let mut r: Vec<Placed> = Vec::new();
        let mut i: usize = 0;
        proof {
            assert(all.take(0) =~= Seq::<PlacementView>::empty());
            assert(r.deep_view() =~= Seq::<PlacedView>::empty());
        }
        while i < self.placements.len()
            invariant
                i <= self.placements.len(),
                all == self.placements.deep_view(),
                mv == monitors.deep_view(),
                r.deep_view() == placed(all.take(i as int), name@, mv),
            decreases self.placements.len() - i,
        {
            let p: &Placement = &self.placements[i];
            proof {
                assert(all.take(i + 1).drop_last() =~= all.take(i as int));
                assert(all.take(i + 1).last() == p.deep_view());
            }
            if p.machine.same(name) {
                if let Some(k) = monitor_meant(p, monitors) {
                    let ghost earlier = r.deep_view();
                    let one: Placed = Placed {
                        monitor: monitors[k].id.clone(),
                        global: p.global,
                    };
                    let ghost added = one.deep_view();
                    r.push(one);
                    assert(r.deep_view() =~= earlier.push(added));
                }
            }
            i += 1;
        }
        proof {
            assert(all.take(i as int) =~= all);
        }
        r
    }

    /// Which machine currently has the cursor.
    pub fn active(&self) -> (r: DeviceId)
        ensures
            r == self@.active,
    {
        self.active
    }

    pub fn cursor(&self) -> (r: Point)
        ensures
            r == self@.cursor,
    {
        self.cursor
    }

    pub fn pointer_mode(&self) -> (r: PointerMode)
        ensures
            r == self@.mode,
    {
        self.mode
    }

    pub fn held_keys(&self) -> (r: Vec<Key>)
        ensures
            r@ == self@.keys,
    {
        let mut r: Vec<Key> = Vec::new();
        let mut i: usize = 0;
        while i < self.keys.items.len()
            invariant
                i <= self.keys.items.len(),
                r@ =~= self@.keys.take(i as int),
            decreases self.keys.items.len() - i,
        {
            r.push(self.keys.items[i]);
            i += 1;
        }
        proof {
            assert(self@.keys.take(i as int) =~= self@.keys);
        }
        r
    }

    pub fn held_buttons(&self) -> (r: Vec<MouseButton>)
        ensures
            r@ == self@.buttons,
    {
        let mut r: Vec<MouseButton> = Vec::new();
        let mut i: usize = 0;
        while i < self.buttons.items.len()
            invariant
                i <= self.buttons.items.len(),
                r@ =~= self@.buttons.take(i as int),
            decreases self.buttons.items.len() - i,
        {
            r.push(self.buttons.items[i]);
            i += 1;
        }
        proof {
            assert(self@.buttons.take(i as int) =~= self@.buttons);
        }
        r
    }

    fn is_usable(&self, device: DeviceId) -> (r: bool)
        ensures
            r == self@.usable(device),
    {
        if device.same(&self.local) {
            return true;
        }
        match self.clients.get(&device) {
            Some(health) => *health == Health::Ready,
            None => false,
        }
    }

    /// What the arrangement has to be asked when an event comes in.
    pub fn first_question(&self, event: &Event, cells: &Vec<Cell>, now: u64) -> (r: Question)
        requires
            proper(cells@),
        ensures
            r == self@.first_question(*event, cells@, now),
    {
        match event {
            Event::PointerAt { x, y } => {
                let at: Point = Point { x: *x, y: *y };
                if self.mode == PointerMode::Local && self.active.same(&self.local) {
                    if let Some(cell) = first_screen_holding(cells, self.local, at) {
                        return Question::ToDesktop { local: cell.local, global: cell.global, at };
                    }
                }
                Question::Nothing
            },
            Event::PointerBy { dx, dy } => Question::Resolve {
                from: self.cursor,
                dx: *dx,
                dy: *dy,
            },
            Event::ClientMonitors { device } => Question::Snap(self.cursor),
            Event::ClientDown { device } => self.question_home(*device, cells),
            Event::ClientSuspended { device, reason } => self.question_home(*device, cells),
            Event::Tick => {
                if let Some(pending) = self.pending {
                    if self.is_due(now) && self.is_usable(pending.target) {
                        return Question::Locate(pending.at);
                    }
                }
                Question::Nothing
            },
            _ => Question::Nothing,
        }
    }

    fn question_home(&self, device: DeviceId, cells: &Vec<Cell>) -> (r: Question)
        requires
            proper(cells@),
        ensures
            r == self@.question_home(device, cells@),
    {
        if self.active.same(&device) {
            if let Some(home) = first_screen_of(cells, self.local) {
                return Question::Locate(home.global.centre());
            }
        }
        Question::Nothing
    }

    /// What the arrangement has to be asked once it has said where a motion
    /// leads.
    pub fn second_question(&self, cells: &Vec<Cell>, motion: Option<Motion>, now: u64) -> (r:
        Question)
        requires
            proper(cells@),
        ensures
            r == self@.second_question(cells@, motion, now),
    {
        if let Some(m) = motion {
            let target: DeviceId = m.located.device;
            if !target.same(&self.active) && !(self.is_usable(target) && self.may_cross(
                target,
                now,
            )) {
                if let Some(at) = self.stop_point(cells, m.global) {
                    return Question::Locate(at);
                }
            }
        }
        Question::Nothing
    }

    fn is_due(&self, now: u64) -> (r: bool)
        ensures
            r == self@.due(now),
    {
        match self.pending {
            Some(pending) => self.settings.switch_delay != 0 && time_since(now, pending.since)
                >= self.settings.switch_delay,
            None => false,
        }
    }

    fn stop_point(&self, cells: &Vec<Cell>, beyond: Point) -> (r: Option<Point>)
        requires
            proper(cells@),
        ensures
            r == self@.stop_point(cells@, beyond),
    {
        let cell: Cell = match first_screen_at(cells, self.active, self.cursor) {
            Some(cell) => cell,
            None => match first_screen_of(cells, self.active) {
                Some(cell) => cell,
                None => {
                    return None;
                },
            },
        };
        let at: Point = cell.global.clamp_point(beyond);
        if at == self.cursor {
            None
        } else {
            Some(at)
        }
    }

    fn deliver(&self, located: Located, out: &mut Vec<Action>)
        ensures
            final(out).deep_view() == old(out).deep_view() + self@.deliver(located).out,
    {
        let ghost sent = out.deep_view();
        if located.device.same(&self.local) {
            if self.mode == PointerMode::Captured {
                emit(
                    out,
                    Action::Local(
                        LocalAction::WarpCursor { x: located.local.x, y: located.local.y },
                    ),
                );
            }
        } else {
            emit(
                out,
                Action::Send {
                    to: located.device,
                    msg: ServerControl::MoveTo { x: located.local.x, y: located.local.y },
                },
            );
        }
        assert(out.deep_view() =~= sent + self@.deliver(located).out);
    }

    fn stop_at_edge(&mut self, beyond: Point, sight: &Sight, out: &mut Vec<Action>)
        requires
            old(self).wf(),
            proper(sight@.cells),
        ensures
            final(self).wf(),
            final(self)@ == old(self)@.stop_at_edge(beyond, sight@).after,
            final(out).deep_view() == old(out).deep_view() + old(self)@.stop_at_edge(
                beyond,
                sight@,
            ).out,
    {
        if let Some(at) = self.stop_point(&sight.cells, beyond) {
            self.cursor = at;
            if let Some(located) = sight.located {
                self.deliver(located, out);
            }
        }
    }

    fn may_cross(&self, target: DeviceId, now: u64) -> (r: bool)
        ensures
            r == self@.may_cross(target, now),
    {
        if self.settings.switch_double_tap != 0 {
            let repeat: bool = match self.last_tap {
                Some(tap) => tap.device.same(&target) && time_since(now, tap.when)
                    <= self.settings.switch_double_tap,
                None => false,
            };
            if repeat {
                return true;
            }
            if self.settings.switch_delay == 0 {
                return false;
            }
        }
        if self.settings.switch_delay == 0 {
            return true;
        }
        match self.pending {
            Some(pending) => pending.target.same(&target) && time_since(now, pending.since)
                >= self.settings.switch_delay,
            None => false,
        }
    }

    fn hold_at_edge(&mut self, target: DeviceId, at: Point, now: u64)
        requires
            old(self).wf(),
            target != old(self)@.active,
        ensures
            final(self).wf(),
            final(self)@ == old(self)@.hold_at_edge(target, at, now),
    {
        let since: u64 = match self.pending {
            Some(pending) => if pending.target.same(&target) {
                pending.since
            } else {
                now
            },
            None => now,
        };
        self.pending = Some(Pending { target, since, at });
    }

    /// Hand the cursor to another machine.
    fn cross_to(
        &mut self,
        target: DeviceId,
        global: Point,
        located: Located,
        out: &mut Vec<Action>,
    )
        requires
            old(self).wf(),
        ensures
            final(self).wf(),
            final(self)@ == old(self)@.cross_to(target, global, located).after,
            final(out).deep_view() == old(out).deep_view() + old(self)@.cross_to(
                target,
                global,
                located,
            ).out,
    {
        let ghost first = self@;
        let ghost sent = out.deep_view();
        let leaving: DeviceId = self.active;
        self.pending = None;
        self.last_tap = None;
        self.cursor = global;
        self.active = target;
        // Tell the machine being left that it no longer has the cursor, so it
        // lets go of anything it is holding on the user's behalf.
        if leaving.same(&self.local) {
            emit(out, Action::Local(LocalAction::SetPointerMode(PointerMode::Captured)));
        } else {
            emit(out, Action::Send { to: leaving, msg: ServerControl::Leave });
        }
        if target.same(&self.local) {
            self.mode = PointerMode::Local;
            emit(out, Action::Local(LocalAction::SetPointerMode(PointerMode::Local)));
            emit(
                out,
                Action::Local(LocalAction::WarpCursor { x: located.local.x, y: located.local.y }),
            );
        } else {
            self.mode = PointerMode::Captured;
            let pressed: Vec<Key> = self.held_keys();
            let buttons: Vec<MouseButton> = self.held_buttons();
            emit(
                out,
                Action::Send {
                    to: target,
                    msg: ServerControl::Enter { at: located.local, pressed, buttons },
                },
            );
        }
        assert(out.deep_view() =~= sent + first.cross_to(target, global, located).out);
    }

    /// Move the authoritative cursor and deal with whatever that implies.
    fn advance(&mut self, sight: &Sight, now: u64, out: &mut Vec<Action>)
        requires
            old(self).wf(),
            proper(sight@.cells),
        ensures
            final(self).wf(),
            final(self)@ == old(self)@.pointer_by(sight@, now).after,
            final(out).deep_view() == old(out).deep_view() + old(self)@.pointer_by(
                sight@,
                now,
            ).out,
    {
        let motion: Motion = match sight.motion {
            Some(motion) => motion,
            None => {
                return ;
            },
        };
        let target: DeviceId = motion.located.device;
        if target.same(&self.active) {
            self.pending = None;
            self.cursor = motion.global;
            self.deliver(motion.located, out);
            return ;
        }
        if !self.is_usable(target) {
            self.pending = None;
            self.stop_at_edge(motion.global, sight, out);
            return ;
        }
        let through: bool = self.may_cross(target, now);
        if self.settings.switch_double_tap != 0 {
            self.last_tap = Some(Tap { when: now, device: target });
        }
        if through {
            self.cross_to(target, motion.global, motion.located, out);
        } else {
            self.hold_at_edge(target, motion.global, now);
            self.stop_at_edge(motion.global, sight, out);
        }
    }

    /// Let a waiting cursor through once its edge has been held long enough.
    fn settle_pending(&mut self, sight: &Sight, now: u64, out: &mut Vec<Action>)
        requires
            old(self).wf(),
        ensures
            final(self).wf(),
            final(self)@ == old(self)@.settle_pending(sight@, now).after,
            final(out).deep_view() == old(out).deep_view() + old(self)@.settle_pending(
                sight@,
                now,
            ).out,
    {
        let pending: Pending = match self.pending {
            Some(pending) => pending,
            None => {
                return ;
            },
        };
        if !self.is_due(now) {
            return ;
        }
        if !self.is_usable(pending.target) {
            self.pending = None;
            return ;
        }
        match sight.located {
            Some(located) => {
                self.cross_to(pending.target, pending.at, located, out);
            },
            None => {
                self.pending = None;
            },
        }
    }

    /// Bring the cursor back to the server's own screen.
    fn recall_cursor(&mut self, sight: &Sight, out: &mut Vec<Action>)
        requires
            old(self).wf(),
            proper(sight@.cells),
        ensures
            final(self).wf(),
            final(self)@ == old(self)@.recall(sight@).after,
            final(out).deep_view() == old(out).deep_view() + old(self)@.recall(sight@).out,
    {
        let ghost first = self@;
        let ghost sent = out.deep_view();
        self.pending = None;
        self.last_tap = None;
        self.active = self.local;
        self.mode = PointerMode::Local;
        emit(out, Action::Local(LocalAction::SetPointerMode(PointerMode::Local)));
        if let Some(home) = first_screen_of(&sight.cells, self.local) {
            self.cursor = home.global.centre();
            if let Some(located) = sight.located {
                emit(
                    out,
                    Action::Local(
                        LocalAction::WarpCursor { x: located.local.x, y: located.local.y },
                    ),
                );
            }
        }
        assert(out.deep_view() =~= sent + first.recall(sight@).out);
    }

    fn withdraw(&mut self, device: DeviceId, sight: &Sight, out: &mut Vec<Action>)
        requires
            old(self).wf(),
            proper(sight@.cells),
        ensures
            final(self).wf(),
            final(self)@ == old(self)@.withdraw(device, sight@).after,
            final(out).deep_view() == old(out).deep_view() + old(self)@.withdraw(
                device,
                sight@,
            ).out,
    {
        if let Some(pending) = self.pending {
            if pending.target.same(&device) {
                self.pending = None;
            }
        }
        if self.active.same(&device) {
            self.recall_cursor(sight, out);
        }
    }

    /// Put the cursor somewhere valid after the layout changed beneath it.
    fn resettle(&mut self, sight: &Sight, out: &mut Vec<Action>)
        requires
            old(self).wf(),
        ensures
            final(self).wf(),
            final(self)@ == old(self)@.resettle(sight@).after,
            final(out).deep_view() == old(out).deep_view() + old(self)@.resettle(sight@).out,
    {
        if let Some(at) = sight.snapped {
            if at.located.device.same(&self.active) {
                self.cursor = at.global;
            } else if self.is_usable(at.located.device) {
                self.cross_to(at.located.device, at.global, at.located, out);
            }
        }
    }

    fn forward(&self, msg: ServerControl, out: &mut Vec<Action>)
        ensures
            final(out).deep_view() == old(out).deep_view() + self@.forward(msg.deep_view()).out,
    {
        let ghost sent = out.deep_view();
        let ghost m = msg.deep_view();
        if !self.active.same(&self.local) {
            emit(out, Action::Send { to: self.active, msg });
        }
        assert(out.deep_view() =~= sent + self@.forward(m).out);
    }

    /// Deal with whatever just happened, given what can be seen of the desktop.
    pub fn handle(&mut self, event: Event, sight: &Sight, now: u64) -> (out: Vec<Action>)
        requires
            old(self).wf(),
            proper(sight@.cells),
        ensures
            final(self).wf(),
            final(self)@ == old(self)@.step(event, sight@, now).after,
            out.deep_view() == old(self)@.step(event, sight@, now).out,
    {
        let ghost first = self@;
        let mut out: Vec<Action> = Vec::new();
        assert(out.deep_view() =~= seq![]);
        match event {
            Event::PointerAt { x, y } => {
                if self.mode == PointerMode::Local && self.active.same(&self.local) {
                    let at: Point = Point { x, y };
                    if first_screen_holding(&sight.cells, self.local, at).is_some() {
                        if let Some(global) = sight.mapped {
                            self.cursor = global;
                        }
                    }
                }
            },
            Event::PointerBy { dx, dy } => self.advance(sight, now, &mut out),
            Event::Button { button, down } => {
                if down {
                    self.buttons.insert(button);
                } else {
                    self.buttons.remove(&button);
                }
                self.forward(ServerControl::Button { button, down }, &mut out);
            },
            Event::Wheel(scroll) => self.forward(ServerControl::Wheel(scroll), &mut out),
            Event::Key { key, down, repeat } => {
                if down {
                    self.keys.insert(key);
                } else {
                    self.keys.remove(&key);
                }
                self.forward(ServerControl::KeyEvent { key, down, repeat }, &mut out);
            },
            Event::ClientUp { device } => {
                self.clients.insert(device, Health::Ready);
                emit(&mut out, Action::Send { to: device, msg: ServerControl::ReleaseAll });
            },
            Event::ClientMonitors { device } => {
                if !self.clients.contains_key(&device) {
                    self.clients.insert(device, Health::Ready);
                }
                self.resettle(sight, &mut out);
            },
            Event::ClientDown { device } => {
                let _health: Option<Health> = self.clients.remove(&device);
                self.withdraw(device, sight, &mut out);
            },
            Event::ClientSuspended { device, reason } => {
                self.clients.insert(device, Health::Suspended);
                self.withdraw(device, sight, &mut out);
            },
            Event::ClientResumed { device } => {
                if self.clients.contains_key(&device) {
                    self.clients.insert(device, Health::Ready);
                }
            },
            Event::Tick => self.settle_pending(sight, now, &mut out),
        }
        assert(out.deep_view() =~= first.step(event, sight@, now).out);
        out
    }
}

} // verus!
