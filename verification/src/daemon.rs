//! Running as the machine that owns the keyboard and mouse.
//!
//! Besides moving the cursor, the daemon keeps three promises to whatever is
//! watching it. It says what it is connected to whenever that changes and every
//! few seconds regardless. It notices when the configuration file changes and
//! takes the change into use without being restarted, so arranging screens in
//! the window is felt at once. And it notices when a machine stops answering,
//! so a link that has quietly died does not leave a pointer hidden or a machine
//! believed connected.
//!
//! Times are nanoseconds on one clock.

use tokio::sync::mpsc::{Receiver, Sender};
use vstd::prelude::*;

use crate::config::{Config, ScreenView};
use crate::control::{ClientControl, ClientControlView, ServerControl, ServerControlView};
use crate::layout::{DeviceId, Monitor, MonitorView, Rect};
use crate::order::Alike;
use crate::proto::{Bulk, BulkView};
use crate::server::{
    Action, ActionView, Event, Health, LocalAction, Placement, PlacementView, PointerMode, Settings,
};
use crate::status::{Machine, MachineState, MachineView, PlacedMonitor, PlacedView};
use crate::table::{erased, keyed, stored, value_of, Table};
use crate::text::{add_text, chars_of, decimal, decimal_of, find_char, text_of};

verus! {

/// How often the configuration file is looked at and the status refreshed.
pub const HOUSEKEEPING: u64 = 2_000_000_000;

/// How long two status writes are kept apart when things are changing fast.
pub const STATUS_SETTLE: u64 = 250_000_000;

/// How often a report with nothing new in it is written anyway.
pub const STATUS_REFRESH: u64 = 5_000_000_000;

/// How many heartbeats a machine may miss before it is given up on.
pub const MISSED_HEARTBEATS: u64 = 3;

/// How full each queue to a machine is allowed to get.
///
/// Motion is bounded tightly because a machine that has fallen behind on
/// positions is better served by the newest one than by a minute of history.
/// Control is bounded loosely, and reaching the limit is a fault rather than a
/// busy moment: it takes a thousand state changes nobody consumed.
pub const MOTION_QUEUE: usize = 256;

pub const CONTROL_QUEUE: usize = 1024;

// --- the two queues -----------------------------------------------------------------

/// What became of a message handed to a machine.
#[derive(Debug, Clone, Copy, PartialEq, Eq, Structural)]
pub enum Sent {
    Queued,
    /// Thrown away to keep up. Only ever motion, which the next one replaces.
    Dropped,
    /// There was no room for something that cannot be thrown away.
    Overflowed,
    /// Nobody is reading the far end any more.
    Closed,
}

/// Whether losing a message does no harm: pointer motion is a stream where the
/// next supersedes the last.
pub open spec fn droppable(msg: ServerControlView) -> bool {
    msg is MoveTo
}

impl ServerControl {
    /// Whether losing this does no harm, because the next one replaces it.
    pub fn may_be_dropped(&self) -> (r: bool)
        ensures
            r == droppable(self.deep_view()),
    {
        match self {
            ServerControl::MoveTo { .. } => true,
            _ => false,
        }
    }
}

/// The two queues a machine is written through.
///
/// They are separate because the two kinds of message fail differently. Under
/// pressure the right answer for motion is to lose one and carry on. Control is
/// a sequence of state changes that nothing repeats: lose a `Leave` or an
/// `Enter` and the machine and the server disagree about where the cursor is,
/// with nothing on the way to correct either of them. Clipboard traffic is
/// control: a lost chunk stalls a paste until it times out, and a lost offer
/// loses the clipboard.
///
/// One queue would force a single policy on both, and it is motion, arriving
/// thousands of times a minute, that decides when a shared queue is full.
///
/// Control may overtake motion, which is harmless in both directions: a
/// position that arrives after a `Leave` is discarded by a machine that knows
/// it no longer has the cursor, and one that arrives after an `Enter` is
/// corrected by the next position a moment later.
#[derive(Debug)]
pub struct Outbound {
    control: Sender<ServerControl>,
    motion: Sender<ServerControl>,
}

/// The end of a queue that is written to.
#[verifier::external_type_specification]
#[verifier::external_body]
#[verifier::reject_recursive_types(T)]
pub struct ExSender<T>(Sender<T>);

/// The end of a queue that is read from.
#[verifier::external_type_specification]
#[verifier::external_body]
#[verifier::reject_recursive_types(T)]
pub struct ExReceiver<T>(Receiver<T>);

/// How a queue took a message.
#[derive(Debug, Clone, Copy, PartialEq, Eq, Structural)]
pub enum Handed {
    Taken,
    Full,
    /// The end that is read from is gone.
    Closed,
}

/// What becomes of a message, by how its queue took it.
pub open spec fn fate(msg: ServerControlView, handed: Handed) -> Sent {
    match handed {
        Handed::Taken => Sent::Queued,
        Handed::Full => if droppable(msg) {
            Sent::Dropped
        } else {
            Sent::Overflowed
        },
        Handed::Closed => Sent::Closed,
    }
}

/// What became of a message, by how its queue took it.
pub fn became(may_be_dropped: bool, handed: Handed) -> (r: Sent)
    ensures
        forall|msg: ServerControlView|
            droppable(msg) == may_be_dropped ==> r == #[trigger] fate(msg, handed),
{
    match handed {
        Handed::Taken => Sent::Queued,
        Handed::Full => if may_be_dropped {
            Sent::Dropped
        } else {
            Sent::Overflowed
        },
        Handed::Closed => Sent::Closed,
    }
}

/// For how many messages a queue was made.
pub uninterp spec fn room_of(queue: Sender<ServerControl>) -> nat;

/// Whether what is put in a queue comes out at this end.
pub uninterp spec fn fed_by(end: Receiver<ServerControl>, queue: Sender<ServerControl>) -> bool;

/// Whether a queue may have answered so when it was handed this message.
pub uninterp spec fn answered(
    queue: Sender<ServerControl>,
    msg: ServerControlView,
    handed: Handed,
) -> bool;

/// A queue with room for so many messages, and the end it is read from:
/// [`tokio::sync::mpsc::channel`], which will not make one without room, nor one
/// with room for more than an eighth of what can be counted.
#[verifier::external_body]
fn queue(room: usize) -> (r: (Sender<ServerControl>, Receiver<ServerControl>))
    requires
        0 < room <= usize::MAX / 8,
    ensures
        room_of(r.0) == room,
        fed_by(r.1, r.0),
{
    tokio::sync::mpsc::channel(room)
}

/// Put a message in a queue if there is room: [`tokio::sync::mpsc::Sender::try_send`].
/// Whether there is depends on how fast the other end is read, so nothing is
/// said of which answer comes, only that it is this queue's answer to this
/// message.
#[verifier::external_body]
fn hand_over(queue: &Sender<ServerControl>, msg: ServerControl) -> (r: Handed)
    ensures
        answered(*queue, msg.deep_view(), r),
{
    match queue.try_send(msg) {
        Ok(()) => Handed::Taken,
        Err(tokio::sync::mpsc::error::TrySendError::Full(_)) => Handed::Full,
        Err(tokio::sync::mpsc::error::TrySendError::Closed(_)) => Handed::Closed,
    }
}

impl Outbound {
    /// How many state changes may wait.
    pub closed spec fn control_room(&self) -> nat {
        room_of(self.control)
    }

    /// How many positions may wait.
    pub closed spec fn motion_room(&self) -> nat {
        room_of(self.motion)
    }

    /// The queue for a message: positions have one to themselves, so that
    /// however many wait, a state change finds the room that is kept for it.
    pub closed spec fn queue_of(&self, msg: ServerControlView) -> Sender<ServerControl> {
        if droppable(msg) {
            self.motion
        } else {
            self.control
        }
    }

    /// Queues of the usual sizes, with nothing in them, and the ends they are
    /// read from: state changes first, then motion.
    pub fn new() -> (r: (
        Outbound,
        Receiver<ServerControl>,
        Receiver<ServerControl>,
    ))
        ensures
            r.0.control_room() == CONTROL_QUEUE,
            r.0.motion_room() == MOTION_QUEUE,
            forall|msg: ServerControlView|
                fed_by(if droppable(msg) { r.2 } else { r.1 }, #[trigger] r.0.queue_of(msg)),
    {
        Outbound::with_room(CONTROL_QUEUE, MOTION_QUEUE)
    }

    /// Queues with room for so many messages each, and the ends they are read
    /// from: state changes first, then motion.
    pub fn with_room(control_room: usize, motion_room: usize) -> (r: (
        Outbound,
        Receiver<ServerControl>,
        Receiver<ServerControl>,
    ))
        requires
            0 < control_room <= usize::MAX / 8,
            0 < motion_room <= usize::MAX / 8,
        ensures
            r.0.control_room() == control_room,
            r.0.motion_room() == motion_room,
            forall|msg: ServerControlView|
                fed_by(if droppable(msg) { r.2 } else { r.1 }, #[trigger] r.0.queue_of(msg)),
    {
        let (control, control_end) = queue(control_room);
        let (motion, motion_end) = queue(motion_room);
        (Outbound { control, motion }, control_end, motion_end)
    }

    fn queue_for(&self, msg: &ServerControl) -> (r: &Sender<ServerControl>)
        ensures
            *r == self.queue_of(msg.deep_view()),
    {
        if msg.may_be_dropped() {
            &self.motion
        } else {
            &self.control
        }
    }

    /// Hand a message over, in the queue for its kind.
    pub fn send(&self, msg: ServerControl) -> (r: Sent)
        ensures
            exists|handed: Handed|
                #[trigger] answered(self.queue_of(msg.deep_view()), msg.deep_view(), handed) && r
                    == fate(msg.deep_view(), handed),
    {
        let ghost m = msg.deep_view();
        let may_be_dropped: bool = msg.may_be_dropped();
        let handed: Handed = hand_over(self.queue_for(&msg), msg);
        let r: Sent = became(may_be_dropped, handed);
        assert(answered(self.queue_of(m), m, handed) && r == fate(m, handed));
        r
    }
}

/// Motion never takes the room of a state change: each waits where there is room
/// for its own kind, whatever else is sent.
pub proof fn each_kind_has_its_own_room(out: Outbound, msg: ServerControlView)
    ensures
        room_of(out.queue_of(msg)) == if droppable(msg) {
            out.motion_room()
        } else {
            out.control_room()
        },
        forall|other: ServerControlView|
            droppable(other) == droppable(msg) ==> #[trigger] out.queue_of(other) == out.queue_of(
                msg,
            ),
{
}

/// Only motion is ever thrown away to keep up, and motion is never a fault: a
/// state change that found no room is one.
pub proof fn only_motion_is_thrown_away(msg: ServerControlView, handed: Handed)
    ensures
        fate(msg, handed) == Sent::Dropped <==> droppable(msg) && handed == Handed::Full,
        fate(msg, handed) == Sent::Overflowed <==> !droppable(msg) && handed == Handed::Full,
        fate(msg, handed) == Sent::Queued <==> handed == Handed::Taken,
        fate(msg, handed) == Sent::Closed <==> handed == Handed::Closed,
{
}

// --- what the configuration asks for ----------------------------------------------------

/// The switching behaviour the configuration asks for.
pub fn settings_of(config: &Config) -> (r: Settings)
    ensures
        r.switch_delay == config.behavior.switch_delay_ms * 1_000_000,
        r.switch_double_tap == config.behavior.switch_double_tap_ms * 1_000_000,
{
    Settings {
        switch_delay: config.behavior.switch_delay_ms as u64 * 1_000_000,
        switch_double_tap: config.behavior.switch_double_tap_ms as u64 * 1_000_000,
    }
}

pub open spec fn screen_placements(screen: ScreenView) -> Seq<PlacementView> {
    Seq::new(
        screen.monitor.len(),
        |i: int|
            PlacementView {
                machine: screen.name,
                monitor: screen.monitor[i].id,
                global: crate::config::rect_of(screen.monitor[i].global),
            },
    )
}

pub open spec fn all_placements(screens: Seq<ScreenView>) -> Seq<PlacementView>
    decreases screens.len(),
{
    if screens.len() == 0 {
        seq![]
    } else {
        all_placements(screens.drop_last()) + screen_placements(screens.last())
    }
}

/// The arrangement the configuration asks for.
pub fn placements_of(config: &Config) -> (r: Vec<Placement>)
    ensures
        r.deep_view() == all_placements(config.deep_view().screen),
{
    let ghost all = config.screen.deep_view();
    let mut r: Vec<Placement> = Vec::new();
    let mut i: usize = 0;
    proof {
        assert(all.take(0) =~= seq![]);
        assert(r.deep_view() =~= seq![]);
    }
    while i < config.screen.len()
        invariant
            i <= config.screen.len(),
            all == config.screen.deep_view(),
            r.deep_view() == all_placements(all.take(i as int)),
        decreases config.screen.len() - i,
    {
        let ghost before = r.deep_view();
        let ghost sv = config.screen@[i as int].deep_view();
        let ghost wanted = screen_placements(sv);
        proof {
            assert(all.take(i + 1).drop_last() =~= all.take(i as int));
            assert(all.take(i + 1).last() == sv);
            assert(before + wanted.take(0) =~= before);
        }
        let screen = &config.screen[i];
        let mut j: usize = 0;
        while j < screen.monitor.len()
            invariant
                j <= screen.monitor.len(),
                sv == screen.deep_view(),
                wanted == screen_placements(sv),
                r.deep_view() == before + wanted.take(j as int),
            decreases screen.monitor.len() - j,
        {
            let ghost so_far = r.deep_view();
            let placement: Placement = Placement {
                machine: screen.name.clone(),
                monitor: screen.monitor[j].id.clone(),
                global: screen.monitor[j].rect(),
            };
            let ghost p = placement.deep_view();
            r.push(placement);
            proof {
                assert(sv.monitor[j as int] == screen.monitor@[j as int].deep_view());
                assert(p =~= wanted[j as int]);
                assert(r.deep_view() =~= so_far.push(p));
                assert(r.deep_view() =~= before + wanted.take(j + 1));
            }
            j += 1;
        }
        assert(wanted.take(j as int) =~= wanted);
        i += 1;
    }
    assert(all.take(i as int) =~= all);
    r
}

/// How long between heartbeats, in nanoseconds: never less than half a second.
pub fn heartbeat_of(config: &Config) -> (r: u64)
    ensures
        r == (if config.network.heartbeat_ms > 500 {
            config.network.heartbeat_ms as int
        } else {
            500
        }) * 1_000_000,
{
    let ms: u32 = if config.network.heartbeat_ms > 500 {
        config.network.heartbeat_ms
    } else {
        500
    };
    ms as u64 * 1_000_000
}

/// An address with its port. One with a colon in it that is not in brackets is
/// put in them.
pub open spec fn bind_address(host: Seq<char>, port: u16) -> Seq<char> {
    if host.contains(':') && host[0] != '[' {
        "["@ + host + "]:"@ + decimal(port as nat)
    } else {
        host + ":"@ + decimal(port as nat)
    }
}

pub open spec fn bind_one(port: u16) -> spec_fn(Seq<char>) -> Seq<char> {
    |host: Seq<char>| bind_address(host, port)
}

/// The addresses to listen on. Listening everywhere is how a machine ends up
/// reachable from a network nobody meant to share it with, so it is never the
/// default: with none named, only the loopback address is used.
pub fn bind_addresses(config: &Config) -> (r: Vec<String>)
    ensures
        r.deep_view() == (if config.network.listen.deep_view().len() == 0 {
            seq!["127.0.0.1:"@ + decimal(config.network.port as nat)]
        } else {
            config.network.listen.deep_view().map_values(bind_one(config.network.port))
        }),
{
    let port: u16 = config.network.port;
    let mut r: Vec<String> = Vec::new();
    let ghost all = config.network.listen.deep_view();
    if config.network.listen.len() == 0 {
        let mut only: Vec<char> = chars_of("127.0.0.1:");
        let mut number: Vec<char> = decimal_of(port as u64);
        only.append(&mut number);
        r.push(text_of(&only));
        assert(r.deep_view() =~= seq!["127.0.0.1:"@ + decimal(port as nat)]);
        return r;
    }
    let mut i: usize = 0;
    while i < config.network.listen.len()
        invariant
            i <= config.network.listen.len(),
            port == config.network.port,
            all == config.network.listen.deep_view(),
            r.deep_view() =~= all.take(i as int).map_values(bind_one(port)),
        decreases config.network.listen.len() - i,
    {
        let ghost before = r.deep_view();
        let one: String = bind_text(config.network.listen[i].as_str(), port);
        let ghost o = one@;
        r.push(one);
        proof {
            assert(all[i as int] == config.network.listen@[i as int]@);
            assert(r.deep_view() =~= before.push(o));
        }
        i += 1;
    }
    assert(all.take(i as int) =~= all);
    r
}

fn bind_text(host: &str, port: u16) -> (r: String)
    ensures
        r@ == bind_address(host@, port),
{
    let chars: Vec<char> = chars_of(host);
    let colon: usize = find_char(&chars, ':');
    proof {
        crate::text::first_at_finds(chars@, ':');
        if colon < chars.len() {
            assert(chars@.contains(chars@[colon as int]));
        } else if chars@.contains(':') {
            let i = choose|i: int| 0 <= i < chars@.len() && chars@[i] == ':';
            assert(chars@[i] != ':');
        }
    }
    let mut number: Vec<char> = decimal_of(port as u64);
    let mut r: Vec<char> = Vec::new();
    if colon < chars.len() && chars[0] != '[' {
        add_text(&mut r, "[");
        add_text(&mut r, host);
        add_text(&mut r, "]:");
        r.append(&mut number);
        assert(r@ =~= "["@ + host@ + "]:"@ + decimal(port as nat));
    } else {
        add_text(&mut r, host);
        add_text(&mut r, ":");
        r.append(&mut number);
        assert(r@ =~= host@ + ":"@ + decimal(port as nat));
    }
    text_of(&r)
}

// --- the machines that are connected ---------------------------------------------------

/// A machine that has connected.
#[derive(Debug, PartialEq, Eq)]
struct Attached {
    name: String,
    /// Which connection this is. A machine that connects again gets a new one,
    /// and anything the old connection says afterwards is not about the machine
    /// that is here now.
    generation: u64,
    last_heard: u64,
}

#[verifier::ext_equal]
pub struct AttachedView {
    pub name: Seq<char>,
    pub generation: u64,
    pub last_heard: u64,
}

impl DeepView for Attached {
    type V = AttachedView;

    closed spec fn deep_view(&self) -> AttachedView {
        AttachedView {
            name: self.name@,
            generation: self.generation,
            last_heard: self.last_heard,
        }
    }
}

/// What is to be done, one thing after the other.
#[derive(Debug, PartialEq)]
#[allow(inconsistent_fields)]
pub enum Act {
    /// Put this through the state machine, once what is being done is done.
    Feed(Event),
    /// Put everything that was fed through the state machine now, the first of
    /// it first.
    Settle,
    /// Hand this to the machine, and say what became of it.
    Send { to: DeviceId, msg: ServerControl },
    /// Let a machine's link go, in such a way that it does not report the close
    /// as a second departure.
    LetGo { device: DeviceId, name: String, why: String },
    /// Read and write this machine's link.
    Welcome { device: DeviceId, generation: u64 },
    /// The clipboard's side of it.
    PeerUp(DeviceId),
    PeerGone(DeviceId),
    PeerSaid { from: DeviceId, msg: Bulk },
    /// These are the displays of a machine: the arrangement takes them in.
    Arrange { device: DeviceId, monitors: Vec<Monitor> },
    /// Start or stop swallowing local input, and hide or show the pointer.
    Swallow(bool),
    /// Put the local pointer here.
    Warp { x: i32, y: i32 },
    /// Read the configuration again.
    Reload,
    WriteStatus,
}

#[allow(inconsistent_fields)]
#[verifier::ext_equal]
pub enum ActView {
    Feed(Event),
    Settle,
    Send { to: DeviceId, msg: ServerControlView },
    LetGo { device: DeviceId, name: Seq<char>, why: Seq<char> },
    Welcome { device: DeviceId, generation: u64 },
    PeerUp(DeviceId),
    PeerGone(DeviceId),
    PeerSaid { from: DeviceId, msg: BulkView },
    Arrange { device: DeviceId, monitors: Seq<MonitorView> },
    Swallow(bool),
    Warp { x: i32, y: i32 },
    Reload,
    WriteStatus,
}

impl DeepView for Act {
    type V = ActView;

    open spec fn deep_view(&self) -> ActView {
        match self {
            Act::Feed(event) => ActView::Feed(*event),
            Act::Settle => ActView::Settle,
            Act::Send { to, msg } => ActView::Send { to: *to, msg: msg.deep_view() },
            Act::LetGo { device, name, why } => ActView::LetGo {
                device: *device,
                name: name@,
                why: why@,
            },
            Act::Welcome { device, generation } => ActView::Welcome {
                device: *device,
                generation: *generation,
            },
            Act::PeerUp(device) => ActView::PeerUp(*device),
            Act::PeerGone(device) => ActView::PeerGone(*device),
            Act::PeerSaid { from, msg } => ActView::PeerSaid {
                from: *from,
                msg: msg.deep_view(),
            },
            Act::Arrange { device, monitors } => ActView::Arrange {
                device: *device,
                monitors: monitors.deep_view(),
            },
            Act::Swallow(on) => ActView::Swallow(*on),
            Act::Warp { x, y } => ActView::Warp { x: *x, y: *y },
            Act::Reload => ActView::Reload,
            Act::WriteStatus => ActView::WriteStatus,
        }
    }
}

/// Everything the daemon keeps track of besides the cursor.
#[verifier::ext_equal]
pub struct DaemonView {
    pub attached: Seq<(DeviceId, AttachedView)>,
    /// How many connections there have been.
    pub generation: u64,
    pub heartbeat: u64,
    /// Whether something happened that the last report does not say.
    pub dirty: bool,
    pub written: Option<u64>,
    pub last_active: DeviceId,
}

pub struct DaemonStep {
    pub after: DaemonView,
    pub out: Seq<ActView>,
}

impl DaemonStep {
    pub open spec fn followed_by(self, next: DaemonStep) -> DaemonStep {
        DaemonStep { after: next.after, out: self.out + next.out }
    }
}

/// How long ago, on one clock.
pub open spec fn elapsed(now: u64, then: u64) -> int {
    if now >= then {
        now - then
    } else {
        0
    }
}

pub open spec fn too_far_behind() -> Seq<char> {
    "too far behind to be told where the cursor is"@
}

pub open spec fn silent_for(limit: int) -> Seq<char> {
    "nothing heard from it for "@ + decimal((limit / 1_000_000_000) as nat) + " s"@
}

pub open spec fn is_silent(now: u64, limit: int) -> spec_fn((DeviceId, AttachedView)) -> bool {
    |e: (DeviceId, AttachedView)| elapsed(now, e.1.last_heard) > limit
}

/// The machines of these entries.
pub open spec fn machines_of(entries: Seq<(DeviceId, AttachedView)>) -> Seq<DeviceId> {
    Seq::new(entries.len(), |i: int| entries[i].0)
}

/// Whether an event is only input or time passing, which no report speaks of.
pub open spec fn is_routine(event: Event) -> bool {
    event is Tick || event is PointerAt || event is PointerBy || event is Button || event is Wheel
        || event is Key
}

impl DaemonView {
    pub open spec fn still(self) -> DaemonStep {
        DaemonStep { after: self, out: seq![] }
    }

    pub open spec fn has(self, device: DeviceId) -> bool {
        value_of(self.attached, device) is Some
    }

    /// Whether this is what a machine's present connection says.
    pub open spec fn is_current(self, device: DeviceId, generation: u64) -> bool {
        self.has(device) && value_of(self.attached, device)->0.generation == generation
    }

    /// A machine's link is let go, and the machine treated as departed.
    pub open spec fn detach(self, device: DeviceId, why: Seq<char>) -> DaemonStep {
        match value_of(self.attached, device) {
            None => self.still(),
            Some(client) => DaemonStep {
                after: DaemonView { attached: erased(self.attached, device), dirty: true, ..self },
                out: seq![
                    ActView::LetGo { device, name: client.name, why },
                    ActView::Feed(Event::ClientDown { device }),
                    ActView::PeerGone(device),
                ],
            },
        }
    }

    /// What the state machine wants comes to this. What is meant for a machine
    /// that is not here goes nowhere.
    pub open spec fn act(self, action: ActionView) -> Seq<ActView> {
        match action {
            ActionView::Send { to, msg } => if self.has(to) {
                seq![ActView::Send { to, msg }]
            } else {
                seq![]
            },
            ActionView::Local(local) => match local {
                LocalAction::SetPointerMode(mode) => seq![
                    ActView::Swallow(mode == PointerMode::Captured),
                ],
                LocalAction::WarpCursor { x, y } => seq![ActView::Warp { x, y }],
                LocalAction::ReleaseAll => seq![],
            },
        }
    }

    /// What became of a message. A thousand unread state changes is a machine
    /// that has stopped, not one that is busy: letting the link go says so, and
    /// brings the cursor home.
    pub open spec fn sent(self, to: DeviceId, outcome: Sent) -> DaemonStep {
        match outcome {
            Sent::Queued => self.still(),
            Sent::Dropped => self.still(),
            Sent::Overflowed => self.detach(to, too_far_behind()),
            Sent::Closed => self.detach(to, "its link has closed"@),
        }
    }

    /// A machine has finished its handshake and introduced itself. If it is
    /// here already, either its old link died without saying so or a second
    /// copy of it has started; either way the old one cannot be told anything
    /// useful any more.
    pub open spec fn arrived(self, device: DeviceId, name: Seq<char>, now: u64) -> DaemonStep {
        let over = self.detach(device, "the same machine connected again"@);
        let settled = if self.has(device) {
            over.out.push(ActView::Settle)
        } else {
            over.out
        };
        let generation = (self.generation + 1) as u64;
        DaemonStep {
            after: DaemonView {
                attached: stored(
                    over.after.attached,
                    device,
                    AttachedView { name, generation, last_heard: now },
                ),
                generation,
                ..over.after
            },
            out: settled + seq![
                ActView::Welcome { device, generation },
                ActView::Feed(Event::ClientUp { device }),
                ActView::Settle,
                ActView::PeerUp(device),
            ],
        }
    }

    /// A connection is over. An old connection's last word is not about the
    /// machine that has since connected again.
    pub open spec fn gone(self, device: DeviceId, generation: u64) -> DaemonStep {
        if self.is_current(device, generation) {
            self.detach(device, "it disconnected"@)
        } else {
            self.still()
        }
    }

    /// A machine said something.
    pub open spec fn heard(
        self,
        device: DeviceId,
        generation: u64,
        msg: ClientControlView,
        now: u64,
    ) -> DaemonStep {
        if !self.is_current(device, generation) {
            self.still()
        } else {
            let client = value_of(self.attached, device)->0;
            let noted = DaemonView {
                attached: stored(
                    self.attached,
                    device,
                    AttachedView { last_heard: now, ..client },
                ),
                ..self
            };
            match msg {
                ClientControlView::Monitors { monitors } => DaemonStep {
                    after: noted,
                    out: seq![
                        ActView::Arrange { device, monitors },
                        ActView::Feed(Event::ClientMonitors { device }),
                    ],
                },
                ClientControlView::Suspended { reason } => DaemonStep {
                    after: noted,
                    out: seq![ActView::Feed(Event::ClientSuspended { device, reason })],
                },
                ClientControlView::Resumed => DaemonStep {
                    after: noted,
                    out: seq![ActView::Feed(Event::ClientResumed { device })],
                },
                ClientControlView::Bulk(bulk) => DaemonStep {
                    after: noted,
                    out: seq![ActView::PeerSaid { from: device, msg: bulk }],
                },
                ClientControlView::Ping { id } => DaemonStep {
                    after: noted,
                    out: seq![
                        ActView::Send { to: device, msg: ServerControlView::Pong { id } },
                    ],
                },
                ClientControlView::Goodbye => noted.gone(device, generation),
                // Being heard from at all was the point of the rest.
                _ => noted.still(),
            }
        }
    }

    pub open spec fn detach_each(self, devices: Seq<DeviceId>, why: Seq<char>) -> DaemonStep
        decreases devices.len(),
    {
        if devices.len() == 0 {
            self.still()
        } else {
            let before = self.detach_each(devices.drop_last(), why);
            before.followed_by(before.after.detach(devices.last(), why))
        }
    }

    /// Every machine is asked whether it is still there, and any that has not
    /// answered for a while is given up on.
    pub open spec fn beat(self, now: u64) -> DaemonStep {
        let limit = self.heartbeat * MISSED_HEARTBEATS;
        let over = self.detach_each(
            machines_of(self.attached.filter(is_silent(now, limit))),
            silent_for(limit),
        );
        let left = machines_of(over.after.attached);
        DaemonStep {
            after: over.after,
            out: over.out + Seq::new(
                left.len(),
                |n: int|
                    ActView::Send {
                        to: left[n],
                        msg: ServerControlView::Ping { id: (n % 0x1_0000_0000) as u32 },
                    },
            ),
        }
    }

    /// Whether a report is due although nothing changed.
    pub open spec fn is_due(self, now: u64, after: u64) -> bool {
        match self.written {
            Some(then) => elapsed(now, then) >= after,
            None => true,
        }
    }

    /// What is looked after every so often.
    pub open spec fn housekeeping(self, config_changed: bool, now: u64) -> Seq<ActView> {
        (if config_changed {
            seq![ActView::Reload]
        } else {
            seq![]
        }) + (if self.is_due(now, STATUS_REFRESH) {
            seq![ActView::WriteStatus]
        } else {
            seq![]
        })
    }
}

fn emit(out: &mut Vec<Act>, a: Act)
    ensures
        final(out).deep_view() == old(out).deep_view().push(a.deep_view()),
{
    let ghost before = out.deep_view();
    let ghost added = a.deep_view();
    out.push(a);
    assert(out.deep_view() =~= before.push(added));
}

fn since_then(now: u64, then: u64) -> (r: u64)
    ensures
        r == elapsed(now, then),
{
    if now >= then {
        now - then
    } else {
        0
    }
}

/// What the daemon keeps track of besides the cursor.
pub struct Daemon {
    attached: Table<DeviceId, Attached>,
    generation: u64,
    heartbeat: u64,
    dirty: bool,
    written: Option<u64>,
    last_active: DeviceId,
}

impl View for Daemon {
    type V = DaemonView;

    closed spec fn view(&self) -> DaemonView {
        DaemonView {
            attached: self.attached.entries(),
            generation: self.generation,
            heartbeat: self.heartbeat,
            dirty: self.dirty,
            written: self.written,
            last_active: self.last_active,
        }
    }
}

impl Daemon {
    /// No machine is here twice, and the heartbeat leaves room to count in.
    pub open spec fn wf(&self) -> bool {
        &&& keyed(self@.attached)
        &&& self@.heartbeat * MISSED_HEARTBEATS <= u64::MAX
    }

    /// Nothing is connected, and nothing has been reported.
    pub fn new(me: DeviceId, heartbeat: u64) -> (r: Daemon)
        requires
            heartbeat * MISSED_HEARTBEATS <= u64::MAX,
        ensures
            r.wf(),
            r@ == (DaemonView {
                attached: seq![],
                generation: 0,
                heartbeat,
                dirty: true,
                written: None,
                last_active: me,
            }),
    {
        let r: Daemon = Daemon {
            attached: Table::new(),
            generation: 0,
            heartbeat,
            dirty: true,
            written: None,
            last_active: me,
        };
        assert(r.attached.entries() =~= seq![]);
        r
    }

    /// Whether there are numbers left for connections. There are enough that
    /// none ever runs short.
    pub fn has_room(&self) -> (r: bool)
        ensures
            r == (self@.generation < u64::MAX),
    {
        self.generation < u64::MAX
    }

    /// Take note of an event before it goes through the state machine.
    pub fn note(&mut self, event: &Event)
        requires
            old(self).wf(),
        ensures
            final(self).wf(),
            final(self)@ == (DaemonView {
                dirty: old(self)@.dirty || !is_routine(*event),
                ..old(self)@
            }),
    {
        match event {
            Event::Tick => {},
            Event::PointerAt { .. } => {},
            Event::PointerBy { .. } => {},
            Event::Button { .. } => {},
            Event::Wheel(_) => {},
            Event::Key { .. } => {},
            _ => {
                self.dirty = true;
            },
        }
    }

    /// Take note of where the cursor is now.
    pub fn note_active(&mut self, active: DeviceId)
        requires
            old(self).wf(),
        ensures
            final(self).wf(),
            final(self)@ == (DaemonView {
                last_active: active,
                dirty: old(self)@.dirty || active != old(self)@.last_active,
                ..old(self)@
            }),
    {
        if !active.same(&self.last_active) {
            self.last_active = active;
            self.dirty = true;
        }
    }

    /// Take note of a configuration taken into use.
    pub fn note_reloaded(&mut self)
        requires
            old(self).wf(),
        ensures
            final(self).wf(),
            final(self)@ == (DaemonView { dirty: true, ..old(self)@ }),
    {
        self.dirty = true;
    }

    /// Carry out what the state machine says.
    pub fn act(&self, action: Action) -> (out: Vec<Act>)
        ensures
            out.deep_view() == self@.act(action.deep_view()),
    {
        let ghost given = action.deep_view();
        let mut out: Vec<Act> = Vec::new();
        assert(out.deep_view() =~= seq![]);
        match action {
            Action::Send { to, msg } => {
                if self.attached.contains_key(&to) {
                    emit(&mut out, Act::Send { to, msg });
                }
            },
            Action::Local(LocalAction::SetPointerMode(mode)) => {
                let captured: bool = match mode {
                    PointerMode::Captured => true,
                    _ => false,
                };
                emit(&mut out, Act::Swallow(captured));
            },
            Action::Local(LocalAction::WarpCursor { x, y }) => {
                emit(&mut out, Act::Warp { x, y });
            },
            Action::Local(LocalAction::ReleaseAll) => {},
        }
        assert(out.deep_view() =~= self@.act(given));
        out
    }

    fn detach(&mut self, device: DeviceId, why: String, out: &mut Vec<Act>)
        requires
            old(self).wf(),
        ensures
            final(self).wf(),
            final(self)@ == old(self)@.detach(device, why@).after,
            final(out).deep_view() == old(out).deep_view() + old(self)@.detach(device, why@).out,
    {
        let ghost first = self@;
        let ghost sent = out.deep_view();
        let ghost text = why@;
        if !self.attached.contains_key(&device) {
            assert(out.deep_view() =~= sent + first.detach(device, text).out);
            return ;
        }
        match self.attached.remove(&device) {
            Some(client) => {
                self.dirty = true;
                emit(out, Act::LetGo { device, name: client.name, why });
                emit(out, Act::Feed(Event::ClientDown { device }));
                emit(out, Act::PeerGone(device));
            },
            None => {},
        }
        assert(out.deep_view() =~= sent + first.detach(device, text).out);
    }

    /// Say what became of a message that was handed to a machine.
    pub fn sent(&mut self, to: DeviceId, outcome: Sent) -> (out: Vec<Act>)
        requires
            old(self).wf(),
        ensures
            final(self).wf(),
            final(self)@ == old(self)@.sent(to, outcome).after,
            out.deep_view() == old(self)@.sent(to, outcome).out,
    {
        let ghost first = self@;
        let mut out: Vec<Act> = Vec::new();
        match outcome {
            Sent::Queued => {},
            Sent::Dropped => {},
            Sent::Overflowed => {
                let why: String = "too far behind to be told where the cursor is".to_owned();
                self.detach(to, why, &mut out);
            },
            Sent::Closed => {
                let why: String = "its link has closed".to_owned();
                self.detach(to, why, &mut out);
            },
        }
        assert(out.deep_view() =~= first.sent(to, outcome).out);
        out
    }

    /// A machine has finished its handshake and introduced itself.
    pub fn arrived(&mut self, device: DeviceId, name: &str, now: u64) -> (out: Vec<Act>)
        requires
            old(self).wf(),
            old(self)@.generation < u64::MAX,
        ensures
            final(self).wf(),
            final(self)@ == old(self)@.arrived(device, name@, now).after,
            out.deep_view() == old(self)@.arrived(device, name@, now).out,
    {
        let ghost first = self@;
        let mut out: Vec<Act> = Vec::new();
        let here: bool = self.attached.contains_key(&device);
        let why: String = "the same machine connected again".to_owned();
        self.detach(device, why, &mut out);
        if here {
            emit(&mut out, Act::Settle);
        }
        self.generation = self.generation + 1;
        let generation: u64 = self.generation;
        self.attached.insert(
            device,
            Attached { name: name.to_owned(), generation, last_heard: now },
        );
        emit(&mut out, Act::Welcome { device, generation });
        emit(&mut out, Act::Feed(Event::ClientUp { device }));
        emit(&mut out, Act::Settle);
        emit(&mut out, Act::PeerUp(device));
        assert(out.deep_view() =~= first.arrived(device, name@, now).out);
        out
    }

    /// Whether this is what a machine's present connection says.
    pub fn current(&self, device: DeviceId, generation: u64) -> (r: bool)
        ensures
            r == self@.is_current(device, generation),
    {
        match self.attached.get(&device) {
            Some(client) => client.generation == generation,
            None => false,
        }
    }

    fn leave(&mut self, device: DeviceId, generation: u64, out: &mut Vec<Act>)
        requires
            old(self).wf(),
        ensures
            final(self).wf(),
            final(self)@ == old(self)@.gone(device, generation).after,
            final(out).deep_view() == old(out).deep_view() + old(self)@.gone(
                device,
                generation,
            ).out,
    {
        let ghost first = self@;
        let ghost sent = out.deep_view();
        if self.current(device, generation) {
            let why: String = "it disconnected".to_owned();
            self.detach(device, why, out);
        }
        assert(out.deep_view() =~= sent + first.gone(device, generation).out);
    }

    /// A connection is over.
    pub fn gone(&mut self, device: DeviceId, generation: u64) -> (out: Vec<Act>)
        requires
            old(self).wf(),
        ensures
            final(self).wf(),
            final(self)@ == old(self)@.gone(device, generation).after,
            out.deep_view() == old(self)@.gone(device, generation).out,
    {
        let ghost first = self@;
        let mut out: Vec<Act> = Vec::new();
        self.leave(device, generation, &mut out);
        assert(out.deep_view() =~= first.gone(device, generation).out);
        out
    }

    /// A machine was heard from.
    fn hear(&mut self, device: DeviceId, now: u64)
        requires
            old(self).wf(),
            old(self)@.has(device),
        ensures
            final(self).wf(),
            final(self)@ == (DaemonView {
                attached: stored(
                    old(self)@.attached,
                    device,
                    AttachedView {
                        last_heard: now,
                        ..value_of(old(self)@.attached, device)->0
                    },
                ),
                ..old(self)@
            }),
    {
        let client: Attached = match self.attached.get(&device) {
            Some(client) => Attached {
                name: client.name.clone(),
                generation: client.generation,
                last_heard: now,
            },
            None => {
                return ;
            },
        };
        self.attached.insert(device, client);
    }

    /// A machine said something.
    pub fn heard(&mut self, device: DeviceId, generation: u64, msg: ClientControl, now: u64) -> (out:
        Vec<Act>)
        requires
            old(self).wf(),
        ensures
            final(self).wf(),
            final(self)@ == old(self)@.heard(device, generation, msg.deep_view(), now).after,
            out.deep_view() == old(self)@.heard(device, generation, msg.deep_view(), now).out,
    {
        let ghost first = self@;
        let ghost given = msg.deep_view();
        let mut out: Vec<Act> = Vec::new();
        assert(out.deep_view() =~= seq![]);
        if !self.current(device, generation) {
            return out;
        }
        self.hear(device, now);
        match msg {
            ClientControl::Monitors { monitors } => {
                emit(&mut out, Act::Arrange { device, monitors });
                emit(&mut out, Act::Feed(Event::ClientMonitors { device }));
            },
            ClientControl::Suspended { reason } => {
                emit(&mut out, Act::Feed(Event::ClientSuspended { device, reason }));
            },
            ClientControl::Resumed => {
                emit(&mut out, Act::Feed(Event::ClientResumed { device }));
            },
            ClientControl::Bulk(bulk) => {
                emit(&mut out, Act::PeerSaid { from: device, msg: bulk });
            },
            ClientControl::Ping { id } => {
                emit(&mut out, Act::Send { to: device, msg: ServerControl::Pong { id } });
            },
            ClientControl::Goodbye => self.leave(device, generation, &mut out),
            _ => {},
        }
        assert(out.deep_view() =~= first.heard(device, generation, given, now).out);
        out
    }

    fn silent(&self, now: u64, limit: u64) -> (r: Vec<DeviceId>)
        ensures
            r@ == machines_of(self@.attached.filter(is_silent(now, limit as int))),
    {
        let ghost all = self@.attached;
        let ghost keep = is_silent(now, limit as int);
        let mut r: Vec<DeviceId> = Vec::new();
        let mut i: usize = 0;
        proof {
            reveal(Seq::filter);
            assert(all.take(0) =~= seq![]);
            assert(r@ =~= machines_of(all.take(0).filter(keep)));
        }
        while i < self.attached.rows.len()
            invariant
                i <= self.attached.rows.len(),
                all == self.attached.rows.deep_view(),
                keep == is_silent(now, limit as int),
                r@ =~= machines_of(all.take(i as int).filter(keep)),
            decreases self.attached.rows.len() - i,
        {
            let ghost before = all.take(i as int).filter(keep);
            proof {
                crate::table::filter_one_more(all, i as int, keep);
                assert(all[i as int] == self.attached.rows@[i as int].deep_view());
            }
            let row: &(DeviceId, Attached) = &self.attached.rows[i];
            if since_then(now, row.1.last_heard) > limit {
                r.push(row.0);
            }
            i += 1;
        }
        assert(all.take(i as int) =~= all);
        r
    }

    /// Ask every machine whether it is still there, and give up on any that has
    /// not answered for a while.
    pub fn beat(&mut self, now: u64) -> (out: Vec<Act>)
        requires
            old(self).wf(),
        ensures
            final(self).wf(),
            final(self)@ == old(self)@.beat(now).after,
            out.deep_view() == old(self)@.beat(now).out,
    {
        let ghost first = self@;
        let limit: u64 = self.heartbeat * MISSED_HEARTBEATS;
        let silent: Vec<DeviceId> = self.silent(now, limit);
        let mut why: Vec<char> = chars_of("nothing heard from it for ");
        let mut number: Vec<char> = decimal_of(limit / 1_000_000_000);
        why.append(&mut number);
        add_text(&mut why, " s");
        let why: String = text_of(&why);
        assert(why@ == silent_for(limit as int));
        let mut out: Vec<Act> = Vec::new();
        let mut i: usize = 0;
        let ghost devices = silent@;
        proof {
            assert(devices.take(0) =~= seq![]);
            assert(out.deep_view() =~= first.detach_each(devices.take(0), why@).out);
        }
        while i < silent.len()
            invariant
                i <= silent.len(),
                devices == silent@,
                self.wf(),
                self@ == first.detach_each(devices.take(i as int), why@).after,
                out.deep_view() == first.detach_each(devices.take(i as int), why@).out,
            decreases silent.len() - i,
        {
            proof {
                assert(devices.take(i + 1).drop_last() =~= devices.take(i as int));
                assert(devices.take(i + 1).last() == devices[i as int]);
            }
            self.detach(silent[i], why.clone(), &mut out);
            i += 1;
        }
        assert(devices.take(i as int) =~= devices);
        let ghost over = first.detach_each(devices, why@);
        let ghost left = machines_of(self@.attached);
        let ghost pings = Seq::new(
            left.len(),
            |n: int|
                ActView::Send {
                    to: left[n],
                    msg: ServerControlView::Ping { id: (n % 0x1_0000_0000) as u32 },
                },
        );
        let mut n: usize = 0;
        assert(over.out + pings.take(0) =~= over.out);
        while n < self.attached.rows.len()
            invariant
                n <= self.attached.rows.len(),
                self.wf(),
                self@ == over.after,
                left == machines_of(self@.attached),
                left.len() == self.attached.rows@.len(),
                pings == Seq::new(
                    left.len(),
                    |n: int|
                        ActView::Send {
                            to: left[n],
                            msg: ServerControlView::Ping { id: (n % 0x1_0000_0000) as u32 },
                        },
                ),
                out.deep_view() == over.out + pings.take(n as int),
            decreases self.attached.rows.len() - n,
        {
            let ghost before = out.deep_view();
            let to: DeviceId = self.attached.rows[n].0;
            let id: u32 = (n as u64 % 0x1_0000_0000) as u32;
            emit(&mut out, Act::Send { to, msg: ServerControl::Ping { id } });
            proof {
                assert(self@.attached[n as int] == self.attached.rows@[n as int].deep_view());
                assert(pings.take(n + 1) =~= pings.take(n as int).push(pings[n as int]));
                assert(out.deep_view() =~= over.out + pings.take(n + 1));
            }
            n += 1;
        }
        proof {
            assert(pings.take(n as int) =~= pings);
            assert(out.deep_view() =~= first.beat(now).out);
        }
        out
    }

    fn is_due(&self, now: u64, after: u64) -> (r: bool)
        ensures
            r == self@.is_due(now, after),
    {
        match self.written {
            Some(then) => since_then(now, then) >= after,
            None => true,
        }
    }

    /// Look after what has to be looked after every so often.
    pub fn housekeeping(&self, config_changed: bool, now: u64) -> (out: Vec<Act>)
        ensures
            out.deep_view() == self@.housekeeping(config_changed, now),
    {
        let mut out: Vec<Act> = Vec::new();
        assert(out.deep_view() =~= seq![]);
        if config_changed {
            emit(&mut out, Act::Reload);
        }
        if self.is_due(now, STATUS_REFRESH) {
            emit(&mut out, Act::WriteStatus);
        }
        assert(out.deep_view() =~= self@.housekeeping(config_changed, now));
        out
    }

    /// Whether the report should be written now: something changed, and the
    /// last report was not a moment ago.
    pub fn should_report(&self, now: u64) -> (r: bool)
        ensures
            r == (self@.dirty && self@.is_due(now, STATUS_SETTLE)),
    {
        self.dirty && self.is_due(now, STATUS_SETTLE)
    }

    /// Take note of a report that was written.
    pub fn reported(&mut self, now: u64)
        requires
            old(self).wf(),
        ensures
            final(self).wf(),
            final(self)@ == (DaemonView { dirty: false, written: Some(now), ..old(self)@ }),
    {
        self.dirty = false;
        self.written = Some(now);
    }
}

// --- the report ----------------------------------------------------------------------

/// A display of a machine, and where the arrangement has it, if it does.
#[derive(Debug, PartialEq, Eq)]
pub struct SeenMonitor {
    pub id: String,
    pub global: Option<Rect>,
    pub label: Option<String>,
    pub primary: bool,
}

#[verifier::ext_equal]
pub struct SeenMonitorView {
    pub id: Seq<char>,
    pub global: Option<Rect>,
    pub label: Option<Seq<char>>,
    pub primary: bool,
}

impl DeepView for SeenMonitor {
    type V = SeenMonitorView;

    open spec fn deep_view(&self) -> SeenMonitorView {
        SeenMonitorView {
            id: self.id@,
            global: self.global,
            label: self.label.deep_view(),
            primary: self.primary,
        }
    }
}

/// A machine in the arrangement, and how it stands if it is connected.
#[derive(Debug, PartialEq, Eq)]
pub struct SeenMachine {
    pub id: DeviceId,
    pub name: String,
    pub health: Option<Health>,
    pub monitors: Vec<SeenMonitor>,
}

#[verifier::ext_equal]
pub struct SeenMachineView {
    pub id: DeviceId,
    pub name: Seq<char>,
    pub health: Option<Health>,
    pub monitors: Seq<SeenMonitorView>,
}

impl DeepView for SeenMachine {
    type V = SeenMachineView;

    open spec fn deep_view(&self) -> SeenMachineView {
        SeenMachineView {
            id: self.id,
            name: self.name@,
            health: self.health,
            monitors: self.monitors.deep_view(),
        }
    }
}

/// The displays that have a place, where they are.
pub open spec fn placed_monitors(seen: Seq<SeenMonitorView>) -> Seq<PlacedView>
    decreases seen.len(),
{
    if seen.len() == 0 {
        seq![]
    } else {
        let earlier = placed_monitors(seen.drop_last());
        let m = seen.last();
        match m.global {
            Some(g) => earlier.push(
                PlacedView {
                    id: m.id,
                    global: seq![g.x, g.y, g.w, g.h],
                    label: m.label,
                    primary: m.primary,
                },
            ),
            None => earlier,
        }
    }
}

/// How a machine stands: this one is always here.
pub open spec fn state_of(me: DeviceId, id: DeviceId, health: Option<Health>) -> MachineState {
    if id == me {
        MachineState::Connected
    } else {
        match health {
            Some(Health::Ready) => MachineState::Connected,
            Some(Health::Suspended) => MachineState::Suspended,
            None => MachineState::Away,
        }
    }
}

pub open spec fn report_one(me: DeviceId, active: DeviceId) -> spec_fn(SeenMachineView) -> MachineView {
    |m: SeenMachineView|
        MachineView {
            name: m.name,
            device: Some(m.id),
            state: state_of(me, m.id, m.health),
            active: m.id == active,
            monitor: placed_monitors(m.monitors),
        }
}

fn copied(text: &Option<String>) -> (r: Option<String>)
    ensures
        r.deep_view() == text.deep_view(),
{
    match text {
        Some(t) => Some(t.clone()),
        None => None,
    }
}

fn placed_of(seen: &Vec<SeenMonitor>) -> (r: Vec<PlacedMonitor>)
    ensures
        r.deep_view() == placed_monitors(seen.deep_view()),
{
    let ghost all = seen.deep_view();
    let mut r: Vec<PlacedMonitor> = Vec::new();
    let mut i: usize = 0;
    proof {
        assert(all.take(0) =~= seq![]);
        assert(r.deep_view() =~= seq![]);
    }
    while i < seen.len()
        invariant
            i <= seen.len(),
            all == seen.deep_view(),
            r.deep_view() == placed_monitors(all.take(i as int)),
        decreases seen.len() - i,
    {
        let ghost before = r.deep_view();
        proof {
            assert(all.take(i + 1).drop_last() =~= all.take(i as int));
            assert(all.take(i + 1).last() == seen@[i as int].deep_view());
        }
        if let Some(g) = seen[i].global {
            let one: PlacedMonitor = PlacedMonitor {
                id: seen[i].id.clone(),
                global: [g.x, g.y, g.w, g.h],
                label: copied(&seen[i].label),
                primary: seen[i].primary,
            };
            let ghost o = one.deep_view();
            r.push(one);
            proof {
                assert(o.global =~= seq![g.x, g.y, g.w, g.h]);
                assert(r.deep_view() =~= before.push(o));
            }
        }
        i += 1;
    }
    assert(all.take(i as int) =~= all);
    r
}

/// What the daemon knows, for anything that wants to show it.
pub fn report(me: DeviceId, active: DeviceId, seen: &Vec<SeenMachine>) -> (r: Vec<Machine>)
    ensures
        r.deep_view() == seen.deep_view().map_values(report_one(me, active)),
{
    let ghost all = seen.deep_view();
    let mut r: Vec<Machine> = Vec::new();
    let mut i: usize = 0;
    while i < seen.len()
        invariant
            i <= seen.len(),
            all == seen.deep_view(),
            r.deep_view() =~= all.take(i as int).map_values(report_one(me, active)),
        decreases seen.len() - i,
    {
        let ghost before = r.deep_view();
        let m: &SeenMachine = &seen[i];
        let state: MachineState = if m.id.same(&me) {
            MachineState::Connected
        } else {
            match m.health {
                Some(Health::Ready) => MachineState::Connected,
                Some(Health::Suspended) => MachineState::Suspended,
                None => MachineState::Away,
            }
        };
        let mut machine: Machine = Machine::new(m.name.as_str(), Some(m.id), state);
        machine.active = m.id.same(&active);
        machine.monitor = placed_of(&m.monitors);
        let ghost mv = machine.deep_view();
        r.push(machine);
        proof {
            assert(all[i as int] == m.deep_view());
            assert(mv =~= report_one(me, active)(all[i as int]));
            assert(r.deep_view() =~= before.push(mv));
        }
        i += 1;
    }
    assert(all.take(i as int) =~= all);
    r
}

// --- laws ------------------------------------------------------------------------------

/// A machine that is let go is gone from everywhere: it is treated as departed
/// by the cursor and by the clipboard, and nothing more is sent to it.
pub proof fn a_machine_let_go_is_gone_everywhere(d: DaemonView, device: DeviceId, why: Seq<char>, msg:
    ServerControlView)
    requires
        keyed(d.attached),
        d.has(device),
    ensures
        ({
            let step = d.detach(device, why);
            &&& !step.after.has(device)
            &&& step.after.act(ActionView::Send { to: device, msg }) == Seq::<ActView>::empty()
            &&& step.out.contains(ActView::Feed(Event::ClientDown { device }))
            &&& step.out.contains(ActView::PeerGone(device))
            &&& step.after.dirty
        }),
{
    let others = |e: (DeviceId, AttachedView)| e.0 != device;
    crate::table::erased_filters(d.attached, device, others);
    crate::table::filtered_reads_back(d.attached, others, device);
    let out = d.detach(device, why).out;
    assert(out[1] == ActView::Feed(Event::ClientDown { device }));
    assert(out[2] == ActView::PeerGone(device));
}

/// What an old connection says is not taken for what the machine that has since
/// connected again says.
pub proof fn an_old_connection_is_not_listened_to(
    d: DaemonView,
    device: DeviceId,
    name: Seq<char>,
    generation: u64,
    msg: ClientControlView,
    now: u64,
)
    requires
        keyed(d.attached),
        d.generation < u64::MAX,
        generation <= d.generation,
    ensures
        ({
            let again = d.arrived(device, name, now).after;
            &&& again.gone(device, generation) == again.still()
            &&& again.heard(device, generation, msg, now) == again.still()
        }),
{
    let over = d.detach(device, "the same machine connected again"@).after.attached;
    crate::table::stored_reads_back(
        over,
        device,
        AttachedView { name, generation: (d.generation + 1) as u64, last_heard: now },
        device,
    );
}

} // verus!
