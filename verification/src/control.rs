//! The keyboard, the mouse, and the messages that carry them.

use vstd::prelude::*;

use crate::layout::{DeviceId, Monitor, MonitorView, Point};
use crate::order::{Alike, Ranked};
use crate::proto::{Bulk, BulkView};

verus! {

/// A key, by its place on the keyboard.
#[derive(Debug, Clone, Copy, PartialEq, Eq, PartialOrd, Ord, Hash)]
pub struct Key(pub u16);

impl DeepView for Key {
    type V = Key;

    open spec fn deep_view(&self) -> Key {
        *self
    }
}

impl Alike for Key {
    fn same(&self, other: &Key) -> (r: bool) {
        self.0 == other.0
    }
}

impl Ranked for Key {
    open spec fn before(a: Key, b: Key) -> bool {
        a.0 < b.0
    }

    proof fn nothing_precedes_itself(a: Key) {
    }

    proof fn precedence_chains(a: Key, b: Key, c: Key) {
    }

    proof fn distinct_values_are_ordered(a: Key, b: Key) {
    }

    fn precedes(&self, other: &Key) -> (r: bool) {
        self.0 < other.0
    }
}

#[derive(Debug, Clone, Copy, PartialEq, Eq, PartialOrd, Ord, Hash)]
pub enum MouseButton {
    Left,
    Right,
    Middle,
    Back,
    Forward,
}

impl DeepView for MouseButton {
    type V = MouseButton;

    open spec fn deep_view(&self) -> MouseButton {
        *self
    }
}

pub open spec fn button_rank(b: MouseButton) -> int {
    match b {
        MouseButton::Left => 0,
        MouseButton::Right => 1,
        MouseButton::Middle => 2,
        MouseButton::Back => 3,
        MouseButton::Forward => 4,
    }
}

fn rank_of(b: &MouseButton) -> (r: u8)
    ensures
        r == button_rank(*b),
{
    match b {
        MouseButton::Left => 0,
        MouseButton::Right => 1,
        MouseButton::Middle => 2,
        MouseButton::Back => 3,
        MouseButton::Forward => 4,
    }
}

impl Alike for MouseButton {
    fn same(&self, other: &MouseButton) -> (r: bool) {
        rank_of(self) == rank_of(other)
    }
}

impl Ranked for MouseButton {
    open spec fn before(a: MouseButton, b: MouseButton) -> bool {
        button_rank(a) < button_rank(b)
    }

    proof fn nothing_precedes_itself(a: MouseButton) {
    }

    proof fn precedence_chains(a: MouseButton, b: MouseButton, c: MouseButton) {
    }

    proof fn distinct_values_are_ordered(a: MouseButton, b: MouseButton) {
    }

    fn precedes(&self, other: &MouseButton) -> (r: bool) {
        rank_of(self) < rank_of(other)
    }
}

/// How far the wheel turned, in fractions of a notch.
#[derive(Debug, Clone, Copy, PartialEq, Eq)]
pub struct Scroll {
    pub dx: i32,
    pub dy: i32,
}

impl Scroll {
    /// One notch of an ordinary wheel.
    pub const NOTCH: i32 = 120;

    pub fn new(dx: i32, dy: i32) -> (r: Scroll)
        ensures
            r == (Scroll { dx, dy }),
    {
        Scroll { dx, dy }
    }
}

/// Why a machine cannot act on input for the moment.
#[derive(Debug, Clone, Copy, PartialEq, Eq, Structural)]
pub enum SuspendReason {
    /// A prompt that takes over the screen is up.
    SecureDesktop,
    Locked,
    /// A window of higher privilege is in front.
    Elevated,
    Other,
}

/// Whether a machine owns the keyboard and mouse or receives from one.
#[derive(Debug, Clone, Copy, PartialEq, Eq, Structural)]
pub enum Role {
    Server,
    Client,
}

/// How a machine introduces itself.
#[derive(Debug, Clone, PartialEq, Eq)]
pub struct Hello {
    pub proto: u32,
    pub device: DeviceId,
    pub name: String,
    pub role: Role,
}

#[verifier::ext_equal]
pub struct HelloView {
    pub proto: u32,
    pub device: DeviceId,
    pub name: Seq<char>,
    pub role: Role,
}

impl DeepView for Hello {
    type V = HelloView;

    open spec fn deep_view(&self) -> HelloView {
        HelloView { proto: self.proto, device: self.device, name: self.name@, role: self.role }
    }
}

/// Why a machine is turned away.
#[derive(Debug, Clone, PartialEq, Eq)]
pub enum Reject {
    ProtocolVersion { theirs: u32, ours: u32 },
    Other(String),
}

#[verifier::ext_equal]
pub enum RejectView {
    ProtocolVersion { theirs: u32, ours: u32 },
    Other(Seq<char>),
}

impl DeepView for Reject {
    type V = RejectView;

    open spec fn deep_view(&self) -> RejectView {
        match self {
            Reject::ProtocolVersion { theirs, ours } => RejectView::ProtocolVersion {
                theirs: *theirs,
                ours: *ours,
            },
            Reject::Other(why) => RejectView::Other(why@),
        }
    }
}

/// What the machine with the keyboard says to the others.
#[allow(inconsistent_fields)]
#[derive(Debug, Clone, PartialEq, Eq)]
pub enum ServerControl {
    Hello(Hello),
    Rejected { reason: Reject },
    /// The cursor arrives, and this is what is held down.
    Enter { at: Point, pressed: Vec<Key>, buttons: Vec<MouseButton> },
    /// The cursor leaves.
    Leave,
    MoveTo { x: i32, y: i32 },
    Button { button: MouseButton, down: bool },
    Wheel(Scroll),
    KeyEvent { key: Key, down: bool, repeat: bool },
    /// This is what is held down, and nothing else.
    SyncKeys { pressed: Vec<Key>, buttons: Vec<MouseButton> },
    ReleaseAll,
    Ping { id: u32 },
    Pong { id: u32 },
    Goodbye,
    Bulk(Bulk),
}

#[allow(inconsistent_fields)]
#[verifier::ext_equal]
pub enum ServerControlView {
    Hello(HelloView),
    Rejected { reason: RejectView },
    Enter { at: Point, pressed: Seq<Key>, buttons: Seq<MouseButton> },
    Leave,
    MoveTo { x: i32, y: i32 },
    Button { button: MouseButton, down: bool },
    Wheel(Scroll),
    KeyEvent { key: Key, down: bool, repeat: bool },
    SyncKeys { pressed: Seq<Key>, buttons: Seq<MouseButton> },
    ReleaseAll,
    Ping { id: u32 },
    Pong { id: u32 },
    Goodbye,
    Bulk(BulkView),
}

impl DeepView for ServerControl {
    type V = ServerControlView;

    open spec fn deep_view(&self) -> ServerControlView {
        match self {
            ServerControl::Hello(hello) => ServerControlView::Hello(hello.deep_view()),
            ServerControl::Rejected { reason } => ServerControlView::Rejected {
                reason: reason.deep_view(),
            },
            ServerControl::Enter { at, pressed, buttons } => ServerControlView::Enter {
                at: *at,
                pressed: pressed@,
                buttons: buttons@,
            },
            ServerControl::Leave => ServerControlView::Leave,
            ServerControl::MoveTo { x, y } => ServerControlView::MoveTo { x: *x, y: *y },
            ServerControl::Button { button, down } => ServerControlView::Button {
                button: *button,
                down: *down,
            },
            ServerControl::Wheel(scroll) => ServerControlView::Wheel(*scroll),
            ServerControl::KeyEvent { key, down, repeat } => ServerControlView::KeyEvent {
                key: *key,
                down: *down,
                repeat: *repeat,
            },
            ServerControl::SyncKeys { pressed, buttons } => ServerControlView::SyncKeys {
                pressed: pressed@,
                buttons: buttons@,
            },
            ServerControl::ReleaseAll => ServerControlView::ReleaseAll,
            ServerControl::Ping { id } => ServerControlView::Ping { id: *id },
            ServerControl::Pong { id } => ServerControlView::Pong { id: *id },
            ServerControl::Goodbye => ServerControlView::Goodbye,
            ServerControl::Bulk(bulk) => ServerControlView::Bulk(bulk.deep_view()),
        }
    }
}

/// What the other machines say back.
#[allow(inconsistent_fields)]
#[derive(Debug, Clone, PartialEq, Eq)]
pub enum ClientControl {
    Hello(Hello),
    /// The screens this machine has.
    Monitors { monitors: Vec<Monitor> },
    /// Nothing sent will reach the screen for the moment.
    Suspended { reason: SuspendReason },
    Resumed,
    KeyStateReport { pressed: Vec<Key>, buttons: Vec<MouseButton> },
    Ping { id: u32 },
    Pong { id: u32 },
    Goodbye,
    Bulk(Bulk),
}

#[allow(inconsistent_fields)]
#[verifier::ext_equal]
pub enum ClientControlView {
    Hello(HelloView),
    Monitors { monitors: Seq<MonitorView> },
    Suspended { reason: SuspendReason },
    Resumed,
    KeyStateReport { pressed: Seq<Key>, buttons: Seq<MouseButton> },
    Ping { id: u32 },
    Pong { id: u32 },
    Goodbye,
    Bulk(BulkView),
}

impl DeepView for ClientControl {
    type V = ClientControlView;

    open spec fn deep_view(&self) -> ClientControlView {
        match self {
            ClientControl::Hello(hello) => ClientControlView::Hello(hello.deep_view()),
            ClientControl::Monitors { monitors } => ClientControlView::Monitors {
                monitors: monitors.deep_view(),
            },
            ClientControl::Suspended { reason } => ClientControlView::Suspended {
                reason: *reason,
            },
            ClientControl::Resumed => ClientControlView::Resumed,
            ClientControl::KeyStateReport { pressed, buttons } => {
                ClientControlView::KeyStateReport { pressed: pressed@, buttons: buttons@ }
            },
            ClientControl::Ping { id } => ClientControlView::Ping { id: *id },
            ClientControl::Pong { id } => ClientControlView::Pong { id: *id },
            ClientControl::Goodbye => ClientControlView::Goodbye,
            ClientControl::Bulk(bulk) => ClientControlView::Bulk(bulk.deep_view()),
        }
    }
}

} // verus!
