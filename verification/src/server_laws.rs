//! What always holds of handing the cursor between machines.

use vstd::prelude::*;

use crate::control::{Key, MouseButton, ServerControlView};
use crate::layout::DeviceId;
use crate::server::{
    elapsed, set_mode, ActionView, Event, Health, PointerMode, ServerView, SightView,
};
use crate::table::{
    erased_filters, filter_members, filtered_reads_back, stored_reads_back, with_item_keeps_order,
    without_item_filters,
};

verus! {

/// The cursor is only ever on a machine that can act: at home, or on one that
/// is connected and has not said otherwise.
pub proof fn the_cursor_is_only_where_it_can_act(
    s: ServerView,
    event: Event,
    sight: SightView,
    now: u64,
)
    requires
        s.coherent(),
        s.usable(s.active),
    ensures
        s.step(event, sight, now).after.usable(s.step(event, sight, now).after.active),
{
    match event {
        Event::ClientUp { device } => {
            stored_reads_back(s.clients, device, Health::Ready, s.active);
        },
        Event::ClientMonitors { device } => {
            stored_reads_back(s.clients, device, Health::Ready, s.active);
        },
        Event::ClientDown { device } => {
            let other = |e: (DeviceId, Health)| e.0 != device;
            erased_filters(s.clients, device, other);
            filtered_reads_back(s.clients, other, s.active);
        },
        Event::ClientSuspended { device, reason } => {
            stored_reads_back(s.clients, device, Health::Suspended, s.active);
        },
        Event::ClientResumed { device } => {
            stored_reads_back(s.clients, device, Health::Ready, s.active);
        },
        _ => {
        },
    }
}

/// Whenever the cursor moves to another machine, that machine is told where it
/// arrives and everything that is held down; and a machine that still could
/// act is told to let go as the cursor leaves it.
pub proof fn a_crossing_carries_the_input_state(
    s: ServerView,
    event: Event,
    sight: SightView,
    now: u64,
)
    requires
        s.coherent(),
    ensures
        ({
            let step = s.step(event, sight, now);
            let to = step.after.active;
            &&& to != s.active && to != s.local ==> exists|i: int|
                0 <= i < step.out.len() && (#[trigger] step.out[i]) is Send && step.out[i]->to == to
                    && step.out[i]->msg is Enter && step.out[i]->msg->Enter_pressed
                    == step.after.keys && step.out[i]->msg->Enter_buttons == step.after.buttons
            &&& to != s.active && s.active != s.local && !(event is ClientDown)
                && !(event is ClientSuspended) ==> step.out.contains(
                ActionView::Send { to: s.active, msg: ServerControlView::Leave },
            )
            &&& to != s.active && to == s.local ==> step.out.contains(
                set_mode(PointerMode::Local),
            )
            &&& to != s.active && s.active == s.local ==> step.out.contains(
                set_mode(PointerMode::Captured),
            )
        }),
{
    let step = s.step(event, sight, now);
    if step.after.active != s.active {
        if step.out.len() > 0 {
            assert(step.out.contains(step.out[0]));
        }
        if step.out.len() > 1 {
            assert(step.out.contains(step.out[1]));
        }
    }
}

/// Keys, buttons and the wheel reach the machine that has the cursor and no
/// other; while the cursor is at home they are sent nowhere.
pub proof fn input_reaches_only_the_machine_with_the_cursor(
    s: ServerView,
    event: Event,
    sight: SightView,
    now: u64,
)
    requires
        event is Key || event is Button || event is Wheel,
    ensures
        ({
            let step = s.step(event, sight, now);
            &&& step.after.active == s.active
            &&& s.active == s.local ==> step.out.len() == 0
            &&& s.active != s.local ==> step.out.len() == 1 && step.out[0] is Send
                && step.out[0]->to == s.active
        }),
{
}

/// What is held is what went down and has not come up, of the keys and of the
/// buttons of the mouse; and nothing else that happens changes what is held.
pub proof fn what_is_held_is_tracked(
    s: ServerView,
    event: Event,
    k: Key,
    b: MouseButton,
    sight: SightView,
    now: u64,
)
    requires
        s.coherent(),
    ensures
        ({
            let after = s.step(event, sight, now).after;
            &&& after.keys.contains(k) == match event {
                Event::Key { key, down, .. } if key == k => down,
                _ => s.keys.contains(k),
            }
            &&& after.buttons.contains(b) == match event {
                Event::Button { button, down } if button == b => down,
                _ => s.buttons.contains(b),
            }
        }),
{
    match event {
        Event::Key { key, down, repeat } => {
            let other = |held: Key| held != key;
            with_item_keeps_order::<Key>(s.keys, key);
            without_item_filters(s.keys, key, other);
            filter_members(s.keys, other);
        },
        Event::Button { button, down } => {
            let other = |held: MouseButton| held != button;
            with_item_keeps_order::<MouseButton>(s.buttons, button);
            without_item_filters(s.buttons, button, other);
            filter_members(s.buttons, other);
        },
        _ => {
        },
    }
}

/// A machine that goes away, or cannot act, does not keep the cursor, and
/// nothing waits to cross to it.
pub proof fn a_machine_that_cannot_act_gives_the_cursor_back(
    s: ServerView,
    event: Event,
    device: DeviceId,
    sight: SightView,
    now: u64,
)
    requires
        s.coherent(),
        device != s.local,
        event is ClientDown && event->ClientDown_device == device || event is ClientSuspended
            && event->ClientSuspended_device == device,
    ensures
        ({
            let after = s.step(event, sight, now).after;
            &&& after.active != device
            &&& after.pending is Some ==> after.pending->0.target != device
            &&& !after.usable(device)
            &&& s.active == device ==> after.active == s.local && after.mode is Local
        }),
{
    let other = |e: (DeviceId, Health)| e.0 != device;
    erased_filters(s.clients, device, other);
    filtered_reads_back(s.clients, other, device);
    stored_reads_back(s.clients, device, Health::Suspended, device);
}

/// The machine beyond an edge that cannot take the cursor is a wall: the
/// cursor stays on the machine it is on.
pub proof fn an_unusable_machine_is_a_wall(
    s: ServerView,
    dx: i32,
    dy: i32,
    sight: SightView,
    now: u64,
)
    requires
        sight.motion is Some,
        !s.usable(sight.motion->0.located.device),
        s.usable(s.active),
    ensures
        ({
            let after = s.step(Event::PointerBy { dx, dy }, sight, now).after;
            &&& after.active == s.active
            &&& after.mode == s.mode
            &&& after.pending is None
        }),
{
}

/// With a delay set and no double tap, a motion takes the cursor across only
/// where its edge has been held for that long.
pub proof fn a_delay_makes_the_cursor_wait(
    s: ServerView,
    dx: i32,
    dy: i32,
    sight: SightView,
    now: u64,
)
    requires
        s.settings.switch_delay != 0,
        s.settings.switch_double_tap == 0,
        s.step(Event::PointerBy { dx, dy }, sight, now).after.active != s.active,
    ensures
        s.pending is Some,
        s.pending->0.target == s.step(Event::PointerBy { dx, dy }, sight, now).after.active,
        elapsed(now, s.pending->0.since) >= s.settings.switch_delay,
{
}

/// With a double tap set and no delay, a motion takes the cursor to a machine
/// that can have it exactly where the same edge was struck within the window.
pub proof fn a_double_tap_crosses_on_the_second_strike(
    s: ServerView,
    dx: i32,
    dy: i32,
    sight: SightView,
    now: u64,
)
    requires
        s.settings.switch_delay == 0,
        s.settings.switch_double_tap != 0,
        sight.motion is Some,
        sight.motion->0.located.device != s.active,
        s.usable(sight.motion->0.located.device),
    ensures
        ({
            let target = sight.motion->0.located.device;
            let after = s.step(Event::PointerBy { dx, dy }, sight, now).after;
            (after.active == target) == s.struck_twice(target, now)
        }),
{
}

/// A position reported by the system only puts the tracked one right: nobody
/// is told, and the cursor never crosses.
pub proof fn a_position_only_resynchronises(
    s: ServerView,
    x: i32,
    y: i32,
    sight: SightView,
    now: u64,
)
    ensures
        ({
            let step = s.step(Event::PointerAt { x, y }, sight, now);
            &&& step.out.len() == 0
            &&& step.after == (ServerView { cursor: step.after.cursor, ..s })
        }),
{
}

} // verus!
