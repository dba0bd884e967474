//! What the daemon does about the machines that come, speak, fall silent and go,
//! and what it says of them.

use vstd::prelude::*;

use crate::config::ScreenView;
use crate::control::{ClientControlView, ServerControlView, SuspendReason};
use crate::daemon::{
    all_placements, bind_address, droppable, fate, is_routine, is_silent, machines_of, placed_monitors,
    report_one, screen_placements, ActView, AttachedView, DaemonView, Handed, SeenMachineView,
    SeenMonitorView, Sent, CONTROL_QUEUE, HOUSEKEEPING, MISSED_HEARTBEATS, MOTION_QUEUE,
    STATUS_REFRESH, STATUS_SETTLE,
};
use crate::layout::{DeviceId, MonitorView, Rect};
use crate::proto::BulkView;
use crate::server::{ActionView, Event, Health, LocalAction, PlacementView, PointerMode};
use crate::status::{MachineState, Status};
use crate::table::{
    erased_filters, filter_members, filtered_reads_back, filtering_stays_keyed, keyed,
    stored_reads_back, value_of, value_of_finds,
};
use crate::text::decimal;

verus! {

/// Two seconds between rounds, a quarter of one between reports that follow each
/// other, five at most between reports, three heartbeats of silence, and room for
/// two hundred and fifty-six positions and a thousand and twenty-four state
/// changes. A report is renewed well before it stops being believed.
pub proof fn the_numbers_the_daemon_runs_by()
    ensures
        HOUSEKEEPING == 2_000_000_000,
        STATUS_SETTLE == 250_000_000,
        STATUS_REFRESH == 5_000_000_000,
        MISSED_HEARTBEATS == 3,
        MOTION_QUEUE == 256,
        CONTROL_QUEUE == 1024,
        Status::FRESH_FOR == 15,
        Status::REFRESH_EVERY == 5,
        STATUS_REFRESH + HOUSEKEEPING < Status::FRESH_FOR * 1_000_000_000,
{
}

/// Positions may be lost on the way, and nothing else.
pub proof fn only_positions_may_be_lost(msg: ServerControlView)
    ensures
        droppable(msg) <==> msg is MoveTo,
{
}

// --- coming and going -------------------------------------------------------------------

/// A machine that arrives is welcomed under a number of its own, the cursor and
/// the clipboard are told of it, and it has just been heard from; if it was here
/// already, its old link is let go first.
pub proof fn an_arriving_machine_is_welcomed(
    d: DaemonView,
    device: DeviceId,
    name: Seq<char>,
    now: u64,
    other: DeviceId,
)
    requires
        keyed(d.attached),
        d.generation < u64::MAX,
    ensures
        ({
            let step = d.arrived(device, name, now);
            let number = (d.generation + 1) as u64;
            let welcome = seq![
                ActView::Welcome { device, generation: number },
                ActView::Feed(Event::ClientUp { device }),
                ActView::Settle,
                ActView::PeerUp(device),
            ];
            &&& step.after.generation == d.generation + 1
            &&& value_of(step.after.attached, device) == Some(
                AttachedView { name, generation: number, last_heard: now },
            )
            &&& other != device ==> value_of(step.after.attached, other) == value_of(
                d.attached,
                other,
            )
            &&& !d.has(device) ==> step.out == welcome
            &&& d.has(device) ==> step.out == seq![
                ActView::LetGo {
                    device,
                    name: value_of(d.attached, device)->0.name,
                    why: "the same machine connected again"@,
                },
                ActView::Feed(Event::ClientDown { device }),
                ActView::PeerGone(device),
                ActView::Settle,
            ] + welcome
            &&& step.after.heartbeat == d.heartbeat
        }),
{
    let number = (d.generation + 1) as u64;
    let entry = AttachedView { name, generation: number, last_heard: now };
    let over = d.detach(device, "the same machine connected again"@).after;
    detached(d, device, "the same machine connected again"@, other);
    stored_reads_back(over.attached, device, entry, device);
    stored_reads_back(over.attached, device, entry, other);
    let step = d.arrived(device, name, now);
    if !d.has(device) {
        assert(step.out =~= seq![
            ActView::Welcome { device, generation: number },
            ActView::Feed(Event::ClientUp { device }),
            ActView::Settle,
            ActView::PeerUp(device),
        ]);
    }
}

proof fn detached(d: DaemonView, device: DeviceId, why: Seq<char>, other: DeviceId)
    requires
        keyed(d.attached),
    ensures
        ({
            let after = d.detach(device, why).after;
            &&& keyed(after.attached)
            &&& value_of(after.attached, device) is None
            &&& other != device ==> value_of(after.attached, other) == value_of(d.attached, other)
            &&& after.heartbeat == d.heartbeat
            &&& after.generation == d.generation
        }),
{
    let rest = |e: (DeviceId, AttachedView)| e.0 != device;
    erased_filters(d.attached, device, rest);
    filtered_reads_back(d.attached, rest, device);
    filtered_reads_back(d.attached, rest, other);
    filtering_stays_keyed(d.attached, rest);
    value_of_finds(d.attached, device);
    value_of_finds(d.attached, other);
}

/// A connection that ends takes its machine with it, with what is said of it;
/// one that has been replaced takes nothing.
pub proof fn a_connection_that_ends_takes_its_machine(
    d: DaemonView,
    device: DeviceId,
    generation: u64,
    client: AttachedView,
)
    requires
        keyed(d.attached),
    ensures
        value_of(d.attached, device) == Some(client) && client.generation == generation ==> ({
            let step = d.gone(device, generation);
            &&& !step.after.has(device)
            &&& step.after.dirty
            &&& step.out == seq![
                ActView::LetGo { device, name: client.name, why: "it disconnected"@ },
                ActView::Feed(Event::ClientDown { device }),
                ActView::PeerGone(device),
            ]
        }),
        value_of(d.attached, device) is None ==> d.gone(device, generation) == d.still(),
        value_of(d.attached, device) == Some(client) && client.generation != generation ==> d.gone(
            device,
            generation,
        ) == d.still(),
{
    detached(d, device, "it disconnected"@, device);
}

/// What became of a message: a state change for which there was no room, or a
/// link that has closed, costs the machine its connection; anything else does
/// not.
pub proof fn a_machine_that_cannot_be_told_is_let_go(d: DaemonView, to: DeviceId, client: AttachedView)
    requires
        keyed(d.attached),
        value_of(d.attached, to) == Some(client),
    ensures
        d.sent(to, Sent::Queued) == d.still(),
        d.sent(to, Sent::Dropped) == d.still(),
        !d.sent(to, Sent::Overflowed).after.has(to),
        d.sent(to, Sent::Overflowed).out == seq![
            ActView::LetGo {
                device: to,
                name: client.name,
                why: "too far behind to be told where the cursor is"@,
            },
            ActView::Feed(Event::ClientDown { device: to }),
            ActView::PeerGone(to),
        ],
        !d.sent(to, Sent::Closed).after.has(to),
        d.sent(to, Sent::Closed).out == seq![
            ActView::LetGo { device: to, name: client.name, why: "its link has closed"@ },
            ActView::Feed(Event::ClientDown { device: to }),
            ActView::PeerGone(to),
        ],
{
    detached(d, to, "its link has closed"@, to);
    detached(d, to, "too far behind to be told where the cursor is"@, to);
}

/// What a connected machine says is passed to whom it concerns, as it is: its
/// displays to the arrangement and the cursor, whether it can act to the cursor,
/// its clipboard to the clipboard; a ping is answered under its number; and
/// whatever it says, it has been heard from.
pub proof fn what_a_machine_says_is_passed_on(
    d: DaemonView,
    device: DeviceId,
    generation: u64,
    client: AttachedView,
    monitors: Seq<MonitorView>,
    reason: SuspendReason,
    bulk: BulkView,
    id: u32,
    now: u64,
)
    requires
        value_of(d.attached, device) == Some(client),
        client.generation == generation,
    ensures
        ({
            let said = d.heard(device, generation, ClientControlView::Monitors { monitors }, now);
            &&& said.out == seq![
                ActView::Arrange { device, monitors },
                ActView::Feed(Event::ClientMonitors { device }),
            ]
            &&& value_of(said.after.attached, device) == Some(
                AttachedView { name: client.name, generation, last_heard: now },
            )
        }),
        d.heard(device, generation, ClientControlView::Suspended { reason }, now).out == seq![
            ActView::Feed(Event::ClientSuspended { device, reason }),
        ],
        d.heard(device, generation, ClientControlView::Resumed, now).out == seq![
            ActView::Feed(Event::ClientResumed { device }),
        ],
        d.heard(device, generation, ClientControlView::Bulk(bulk), now).out == seq![
            ActView::PeerSaid { from: device, msg: bulk },
        ],
        ({
            let said = d.heard(device, generation, ClientControlView::Ping { id }, now);
            &&& said.out == seq![
                ActView::Send { to: device, msg: ServerControlView::Pong { id } },
            ]
            &&& value_of(said.after.attached, device) == Some(
                AttachedView { name: client.name, generation, last_heard: now },
            )
        }),
        ({
            let said = d.heard(device, generation, ClientControlView::Pong { id }, now);
            &&& said.out.len() == 0
            &&& value_of(said.after.attached, device) == Some(
                AttachedView { name: client.name, generation, last_heard: now },
            )
        }),
        ({
            let said = d.heard(device, generation, ClientControlView::Goodbye, now);
            &&& said.out.len() == 3
            &&& said.out[0] is LetGo
            &&& said.out[1] == ActView::Feed(Event::ClientDown { device })
            &&& said.out[2] == ActView::PeerGone(device)
        }),
{
    let entry = AttachedView { name: client.name, generation, last_heard: now };
    assert(entry == AttachedView { last_heard: now, ..client });
    stored_reads_back(d.attached, device, entry, device);
}

// --- heartbeats ---------------------------------------------------------------------------

proof fn detached_each(d: DaemonView, devices: Seq<DeviceId>, why: Seq<char>, device: DeviceId)
    requires
        keyed(d.attached),
    ensures
        ({
            let step = d.detach_each(devices, why);
            &&& keyed(step.after.attached)
            &&& step.after.heartbeat == d.heartbeat
            &&& devices.contains(device) ==> value_of(step.after.attached, device) is None
            &&& !devices.contains(device) ==> value_of(step.after.attached, device) == value_of(
                d.attached,
                device,
            )
            &&& devices.contains(device) && d.has(device) ==> step.out.contains(
                ActView::LetGo { device, name: value_of(d.attached, device)->0.name, why },
            ) && step.out.contains(ActView::Feed(Event::ClientDown { device }))
                && step.out.contains(ActView::PeerGone(device))
        }),
    decreases devices.len(),
{
    if devices.len() > 0 {
        let fewer = devices.drop_last();
        let last = devices.last();
        let before = d.detach_each(fewer, why);
        detached_each(d, fewer, why, device);
        detached(before.after, last, why, device);
        let now = before.after.detach(last, why);
        let step = d.detach_each(devices, why);
        assert(step.out == before.out + now.out);
        assert(devices[devices.len() - 1] == last);
        if devices.contains(device) {
            let i = choose|i: int| 0 <= i < devices.len() && devices[i] == device;
            if i < fewer.len() {
                assert(fewer[i] == device);
            }
        }
        if fewer.contains(device) {
            let i = choose|i: int| 0 <= i < fewer.len() && fewer[i] == device;
            assert(devices[i] == device);
            if d.has(device) {
                let let_go = ActView::LetGo {
                    device,
                    name: value_of(d.attached, device)->0.name,
                    why,
                };
                let down = ActView::Feed(Event::ClientDown { device });
                let gone = ActView::PeerGone(device);
                let a = choose|a: int| 0 <= a < before.out.len() && before.out[a] == let_go;
                let b = choose|b: int| 0 <= b < before.out.len() && before.out[b] == down;
                let c = choose|c: int| 0 <= c < before.out.len() && before.out[c] == gone;
                assert(step.out[a] == let_go && step.out[b] == down && step.out[c] == gone);
            }
        } else if last == device && d.has(device) {
            let k = before.out.len() as int;
            assert(step.out[k] == now.out[0]);
            assert(step.out[k + 1] == now.out[1]);
            assert(step.out[k + 2] == now.out[2]);
        }
    }
}

/// At every beat, a machine that has been heard from within three heartbeats is
/// asked whether it is still there; one that has not is given up on, and said to
/// be gone everywhere.
pub proof fn a_beat_asks_and_gives_up(d: DaemonView, device: DeviceId, client: AttachedView, now: u64)
    requires
        keyed(d.attached),
        value_of(d.attached, device) == Some(client),
        now >= client.last_heard,
    ensures
        ({
            let step = d.beat(now);
            let silent = now - client.last_heard > 3 * d.heartbeat;
            &&& !silent ==> value_of(step.after.attached, device) == Some(client) && exists|i: int|
                0 <= i < step.out.len() && (#[trigger] step.out[i]) is Send && step.out[i]->to
                    == device && step.out[i]->Send_msg is Ping
            &&& silent ==> value_of(step.after.attached, device) is None && step.out.contains(
                ActView::LetGo {
                    device,
                    name: client.name,
                    why: "nothing heard from it for "@ + decimal(
                        (3 * d.heartbeat / 1_000_000_000) as nat,
                    ) + " s"@,
                },
            ) && step.out.contains(ActView::Feed(Event::ClientDown { device }))
                && step.out.contains(ActView::PeerGone(device))
        }),
{
    let limit = d.heartbeat * MISSED_HEARTBEATS;
    assert(limit == 3 * d.heartbeat);
    let lost = d.attached.filter(is_silent(now, limit));
    let names = machines_of(lost);
    filter_members(d.attached, is_silent(now, limit));
    value_of_finds(d.attached, device);
    let why = crate::daemon::silent_for(limit);
    detached_each(d, names, why, device);
    let over = d.detach_each(names, why);
    let step = d.beat(now);
    if now - client.last_heard > limit {
        let e = (device, client);
        assert(d.attached.contains(e));
        assert(lost.contains(e));
        let i = choose|i: int| 0 <= i < lost.len() && lost[i] == e;
        assert(names[i] == device);
        let let_go = ActView::LetGo { device, name: client.name, why };
        let down = ActView::Feed(Event::ClientDown { device });
        let gone = ActView::PeerGone(device);
        let a = choose|a: int| 0 <= a < over.out.len() && over.out[a] == let_go;
        let b = choose|b: int| 0 <= b < over.out.len() && over.out[b] == down;
        let c = choose|c: int| 0 <= c < over.out.len() && over.out[c] == gone;
        assert(step.out[a] == let_go && step.out[b] == down && step.out[c] == gone);
    } else {
        if names.contains(device) {
            let i = choose|i: int| 0 <= i < names.len() && names[i] == device;
            let e = lost[i];
            assert(lost.contains(e));
            let j = choose|j: int| 0 <= j < d.attached.len() && d.attached[j] == e;
            crate::table::entry_is_found(d.attached, j);
        }
        value_of_finds(over.after.attached, device);
        let left = machines_of(over.after.attached);
        let k = choose|k: int|
            0 <= k < over.after.attached.len() && (#[trigger] over.after.attached[k]).0 == device;
        assert(left[k] == device);
        let at = over.out.len() + k;
        assert(step.out[at] is Send && step.out[at]->to == device && step.out[at]->Send_msg is Ping);
    }
}

// --- carrying out ---------------------------------------------------------------------------

/// What the cursor wants done is done: a message goes to the machine it is for,
/// while it is here; capturing the pointer swallows this machine's input, and
/// letting it go does not; and the pointer is put where it is said to be.
pub proof fn what_the_cursor_wants_is_done(
    d: DaemonView,
    to: DeviceId,
    msg: ServerControlView,
    x: i32,
    y: i32,
)
    ensures
        d.has(to) ==> d.act(ActionView::Send { to, msg }) == seq![ActView::Send { to, msg }],
        !d.has(to) ==> d.act(ActionView::Send { to, msg }).len() == 0,
        d.act(ActionView::Local(LocalAction::SetPointerMode(PointerMode::Captured))) == seq![
            ActView::Swallow(true),
        ],
        d.act(ActionView::Local(LocalAction::SetPointerMode(PointerMode::Local))) == seq![
            ActView::Swallow(false),
        ],
        d.act(ActionView::Local(LocalAction::WarpCursor { x, y })) == seq![ActView::Warp { x, y }],
{
}

/// Every round a configuration that changed is read again, and a report that is
/// five seconds old, or was never made, is made.
pub proof fn what_is_looked_after_every_round(d: DaemonView, config_changed: bool, now: u64)
    ensures
        ({
            let out = d.housekeeping(config_changed, now);
            let old_enough = d.written is None || d.written->0 <= now && now - d.written->0
                >= 5_000_000_000;
            &&& out.contains(ActView::Reload) <==> config_changed
            &&& out.contains(ActView::WriteStatus) <==> old_enough
            &&& forall|i: int|
                0 <= i < out.len() ==> (#[trigger] out[i]) is Reload || out[i] is WriteStatus
        }),
{
    let out = d.housekeeping(config_changed, now);
    if config_changed {
        assert(out[0] == ActView::Reload);
    }
    let old_enough = d.written is None || d.written->0 <= now && now - d.written->0
        >= 5_000_000_000;
    if old_enough {
        assert(out[out.len() - 1] == ActView::WriteStatus);
    }
}

/// Input and the passing of time are not worth a report; a machine that comes,
/// goes or changes is.
pub proof fn what_is_worth_a_report(device: DeviceId, reason: SuspendReason, event: Event)
    ensures
        !is_routine(Event::ClientUp { device }),
        !is_routine(Event::ClientDown { device }),
        !is_routine(Event::ClientMonitors { device }),
        !is_routine(Event::ClientSuspended { device, reason }),
        !is_routine(Event::ClientResumed { device }),
        event is Tick || event is PointerAt || event is PointerBy || event is Button
            || event is Wheel || event is Key ==> is_routine(event),
{
}

// --- what is said ------------------------------------------------------------------------------

/// A machine in the report: its name, whether it is here and can act, and whether
/// the cursor is on it. This machine is always here.
pub proof fn how_a_machine_is_reported(me: DeviceId, active: DeviceId, m: SeenMachineView)
    ensures
        ({
            let said = report_one(me, active)(m);
            &&& said.name == m.name
            &&& said.device == Some(m.id)
            &&& said.active == (m.id == active)
            &&& said.monitor == placed_monitors(m.monitors)
            &&& m.id == me ==> said.state == MachineState::Connected
            &&& m.id != me && m.health == Some(Health::Ready) ==> said.state
                == MachineState::Connected
            &&& m.id != me && m.health == Some(Health::Suspended) ==> said.state
                == MachineState::Suspended
            &&& m.id != me && m.health is None ==> said.state == MachineState::Away
        }),
{
}

/// A display that has a place is reported there, as it is; one that has none is
/// left out.
pub proof fn how_a_display_is_reported(earlier: Seq<SeenMonitorView>, m: SeenMonitorView)
    ensures
        ({
            let said = placed_monitors(earlier.push(m));
            let before = placed_monitors(earlier);
            &&& m.global is None ==> said == before
            &&& m.global is Some ==> {
                &&& said.len() == before.len() + 1
                &&& said.drop_last() == before
                &&& said.last().id == m.id
                &&& said.last().label == m.label
                &&& said.last().primary == m.primary
                &&& said.last().global == seq![
                    m.global->0.x,
                    m.global->0.y,
                    m.global->0.w,
                    m.global->0.h,
                ]
            }
        }),
{
    assert(earlier.push(m).drop_last() =~= earlier);
    let said = placed_monitors(earlier.push(m));
    if m.global is Some {
        assert(said.drop_last() =~= placed_monitors(earlier));
    }
}

// --- what the configuration asks for -----------------------------------------------------------

/// Every monitor of every screen in the configuration is placed, on the machine
/// of that name, where the configuration says.
pub proof fn every_monitor_is_placed(screens: Seq<ScreenView>, i: int, j: int)
    requires
        0 <= i < screens.len(),
        0 <= j < screens[i].monitor.len(),
        screens[i].monitor[j].global.len() == 4,
    ensures
        ({
            let g = screens[i].monitor[j].global;
            all_placements(screens).contains(
                PlacementView {
                    machine: screens[i].name,
                    monitor: screens[i].monitor[j].id,
                    global: Rect { x: g[0], y: g[1], w: g[2], h: g[3] },
                },
            )
        }),
    decreases screens.len(),
{
    let g = screens[i].monitor[j].global;
    let one = PlacementView {
        machine: screens[i].name,
        monitor: screens[i].monitor[j].id,
        global: Rect { x: g[0], y: g[1], w: g[2], h: g[3] },
    };
    let earlier = all_placements(screens.drop_last());
    let all = all_placements(screens);
    if i < screens.len() - 1 {
        every_monitor_is_placed(screens.drop_last(), i, j);
        let k = choose|k: int| 0 <= k < earlier.len() && earlier[k] == one;
        assert(all[k] == one);
    } else {
        assert(screen_placements(screens[i])[j] == one);
        assert(all[earlier.len() + j] == one);
    }
}

/// There is one placement for each monitor, and no other.
pub proof fn nothing_else_is_placed(screens: Seq<ScreenView>, screen: ScreenView)
    ensures
        all_placements(Seq::empty()).len() == 0,
        all_placements(screens.push(screen)).len() == all_placements(screens).len()
            + screen.monitor.len(),
        all_placements(screens.push(screen)).take(all_placements(screens).len() as int)
            == all_placements(screens),
{
    assert(screens.push(screen).drop_last() =~= screens);
    let more = all_placements(screens.push(screen));
    assert(more.take(all_placements(screens).len() as int) =~= all_placements(screens));
}

/// An address to listen on is the host and the port with a colon between; a host
/// that has colons of its own is put in brackets first.
pub proof fn how_an_address_is_written(host: Seq<char>, port: u16)
    ensures
        !host.contains(':') ==> bind_address(host, port) == host + seq![':'] + decimal(port as nat),
        host.contains(':') && host[0] != '[' ==> bind_address(host, port) == seq!['['] + host + seq![
            ']',
            ':',
        ] + decimal(port as nat),
        host.len() > 0 && host[0] == '[' ==> bind_address(host, port) == host + seq![':'] + decimal(
            port as nat,
        ),
{
    reveal_strlit("[");
    reveal_strlit("]:");
    reveal_strlit(":");
    assert("["@ =~= seq!['[']);
    assert("]:"@ =~= seq![']', ':']);
    assert(":"@ =~= seq![':']);
}

// --- what is not for us ---------------------------------------------------------------

/// What becomes of a message depends on the queue it was handed to: one that was
/// taken is on its way, one that found no room is lost if it was only a position,
/// and one that must not be lost ends the connection.
pub proof fn what_becomes_of_a_message(msg: ServerControlView)
    ensures
        fate(msg, Handed::Taken) == Sent::Queued,
        fate(msg, Handed::Closed) == Sent::Closed,
        msg is MoveTo ==> fate(msg, Handed::Full) == Sent::Dropped,
        !(msg is MoveTo) ==> fate(msg, Handed::Full) == Sent::Overflowed,
{
}

/// What comes over a connection that is no longer a machine's is not heard, and
/// nothing can be lost on the way to a machine that is not there.
pub proof fn an_old_connection_says_nothing(
    d: DaemonView,
    device: DeviceId,
    generation: u64,
    msg: ClientControlView,
    outcome: Sent,
    now: u64,
)
    ensures
        value_of(d.attached, device) is None ==> d.heard(device, generation, msg, now) == d.still(),
        value_of(d.attached, device) is Some && value_of(d.attached, device)->0.generation
            != generation ==> d.heard(device, generation, msg, now) == d.still(),
        value_of(d.attached, device) is None ==> d.sent(device, outcome) == d.still(),
        d.still().after == d && d.still().out.len() == 0,
        d.act(ActionView::Local(LocalAction::ReleaseAll)).len() == 0,
{
}

/// Hearing from one machine changes nothing about the others; and one that says
/// goodbye is let go of.
pub proof fn the_others_are_not_heard(
    d: DaemonView,
    device: DeviceId,
    generation: u64,
    client: AttachedView,
    msg: ClientControlView,
    now: u64,
    other: DeviceId,
)
    requires
        keyed(d.attached),
        value_of(d.attached, device) == Some(client),
        client.generation == generation,
    ensures
        other != device ==> value_of(
            d.heard(device, generation, msg, now).after.attached,
            other,
        ) == value_of(d.attached, other),
        !(msg is Goodbye) ==> value_of(
            d.heard(device, generation, msg, now).after.attached,
            device,
        ) == Some(AttachedView { last_heard: now, ..client }),
        msg is Goodbye ==> value_of(
            d.heard(device, generation, msg, now).after.attached,
            device,
        ) is None,
        msg is Goodbye ==> d.heard(device, generation, msg, now).out[0] == (ActView::LetGo {
            device,
            name: client.name,
            why: "it disconnected"@,
        }),
        d.heard(device, generation, msg, now).after.heartbeat == d.heartbeat,
        d.heard(device, generation, msg, now).after.generation == d.generation,
{
    let entry = AttachedView { last_heard: now, ..client };
    stored_reads_back(d.attached, device, entry, device);
    stored_reads_back(d.attached, device, entry, other);
    let noted = crate::table::stored(d.attached, device, entry);
    crate::table::stored_stays_keyed(d.attached, device, entry);
    erased_reads(noted, device, other);
    erased_reads(noted, device, device);
}

proof fn erased_reads(s: Seq<(DeviceId, AttachedView)>, gone: DeviceId, other: DeviceId)
    requires
        keyed(s),
    ensures
        value_of(crate::table::erased(s, gone), gone) is None,
        other != gone ==> value_of(crate::table::erased(s, gone), other) == value_of(s, other),
{
    let keep = |e: (DeviceId, AttachedView)| e.0 != gone;
    erased_filters(s, gone, keep);
    filter_members(s, keep);
    filtered_reads_back(s, keep, other);
    filtered_reads_back(s, keep, gone);
    value_of_finds(s, other);
    value_of_finds(crate::table::erased(s, gone), gone);
    value_of_finds(crate::table::erased(s, gone), other);
}

/// A report is due when none was written yet, or when the last one is as old as it
/// may get.
pub proof fn when_a_report_is_due(d: DaemonView, now: u64, after: u64)
    ensures
        d.written is None ==> d.is_due(now, after),
        d.written is Some && now >= d.written->0 ==> d.is_due(now, after) == (now - d.written->0
            >= after),
        d.written is Some && now < d.written->0 ==> d.is_due(now, after) == (after == 0),
{
}

} // verus!
