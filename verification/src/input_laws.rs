//! What putting input on this machine's screen is for: what arrives is what is
//! done, while this machine is in charge and not otherwise.

use vstd::prelude::*;

use crate::client::{ClientActionView, ClientView, OutcomeView, Work, WorkView};
use crate::control::{ClientControlView, Key, MouseButton, Scroll, ServerControlView, SuspendReason};
use crate::layout::Point;

verus! {

/// While this machine has the cursor and can act, what is put on the screen is
/// what the message says: the same place, the same button going the same way,
/// the same turn of the wheel, the same key. It shows at once, nothing is sent
/// back, and nothing else about this machine changes.
pub proof fn what_arrives_is_what_is_done(
    s: ClientView,
    x: i32,
    y: i32,
    button: MouseButton,
    down: bool,
    repeat: bool,
    scroll: Scroll,
    key: Key,
)
    requires
        s.active,
        s.suspended is None,
    ensures
        s.react(ServerControlView::MoveTo { x, y }).work == seq![
            WorkView::MoveTo { x, y },
            WorkView::Flush,
        ],
        s.react(ServerControlView::Button { button, down }).work == seq![
            WorkView::Button { button, down },
            WorkView::Flush,
        ],
        s.react(ServerControlView::Wheel(scroll)).work == seq![
            WorkView::Wheel(scroll),
            WorkView::Flush,
        ],
        !(repeat && down) ==> s.react(ServerControlView::KeyEvent { key, down, repeat }).work
            == seq![WorkView::Key { key, down }, WorkView::Flush],
        s.react(ServerControlView::KeyEvent { key, down: true, repeat: true }).work == seq![
            WorkView::Repeat { key },
            WorkView::Flush,
        ],
{
    assert(s.react(ServerControlView::MoveTo { x, y }).work =~= seq![
        WorkView::MoveTo { x, y },
        WorkView::Flush,
    ]);
}

/// None of that sends anything back, or changes who is in charge.
pub proof fn input_changes_nobodys_charge(s: ClientView, msg: ServerControlView)
    requires
        msg is MoveTo || msg is Button || msg is Wheel || msg is KeyEvent || msg is SyncKeys
            || msg is ReleaseAll,
    ensures
        s.react(msg).out.len() == 0,
        s.react(msg).after == s,
{
}

/// Away from here, or unable to act, nothing of it is done.
pub proof fn input_for_elsewhere_is_not_done(s: ClientView, msg: ServerControlView)
    requires
        !s.active || s.suspended is Some,
        msg is MoveTo || msg is Button || msg is Wheel || msg is KeyEvent,
    ensures
        s.react(msg).work.len() == 0,
        s.react(msg).out.len() == 0,
        s.react(msg).after == s,
{
}

/// The cursor arrives: the pointer is put where it comes in, shown, and exactly
/// what the server says is held is held. It leaves: everything is let go of and
/// the pointer goes out of the way.
pub proof fn arriving_and_leaving(
    s: ClientView,
    at: Point,
    pressed: Seq<Key>,
    buttons: Seq<MouseButton>,
)
    ensures
        ({
            let arrived = s.react(ServerControlView::Enter { at, pressed, buttons });
            let left = s.react(ServerControlView::Leave);
            &&& arrived.work == seq![
                WorkView::MoveTo { x: at.x, y: at.y },
                WorkView::ShowCursor,
                WorkView::Sync { pressed, buttons },
            ]
            &&& arrived.after.active
            &&& arrived.after.suspended == s.suspended
            &&& arrived.after.refused == s.refused
            &&& arrived.out.len() == 0
            &&& left.work == seq![WorkView::ReleaseAll, WorkView::HideCursor]
            &&& !left.after.active
            &&& left.after.suspended == s.suspended
            &&& left.after.refused == s.refused
            &&& left.out.len() == 0
        }),
{
}

/// What is held is made what the server says is held; told to let go, this
/// machine lets go and does nothing else.
pub proof fn what_is_held_is_what_the_server_says(
    s: ClientView,
    pressed: Seq<Key>,
    buttons: Seq<MouseButton>,
)
    ensures
        s.react(ServerControlView::SyncKeys { pressed, buttons }).work == seq![
            WorkView::Sync { pressed, buttons },
        ],
        s.react(ServerControlView::ReleaseAll).work == seq![WorkView::ReleaseAll],
{
}

/// A question whether this machine is there is answered under its own number.
pub proof fn a_ping_is_answered(s: ClientView, id: u32)
    ensures
        s.react(ServerControlView::Ping { id }).out == seq![
            ClientActionView::Send(ClientControlView::Pong { id }),
        ],
        s.react(ServerControlView::Ping { id }).work.len() == 0,
        s.react(ServerControlView::Ping { id }).after == s,
{
}

/// The server says goodbye, or the link goes: everything is let go of, and the
/// pointer is this machine's own again.
pub proof fn the_end_of_the_link_gives_this_machine_back(s: ClientView)
    ensures
        s.react(ServerControlView::Goodbye).work == seq![WorkView::ReleaseAll, WorkView::ShowCursor],
        s.disconnected().work == seq![WorkView::ReleaseAll, WorkView::ShowCursor],
        !s.react(ServerControlView::Goodbye).after.active,
        !s.disconnected().after.active,
        s.disconnected().out.len() == 0,
        s.react(ServerControlView::Goodbye).out.len() == 0,
        s.disconnected().after.suspended == s.suspended,
{
}

/// This machine says once that it cannot act, and why, letting go of everything;
/// and once that it can again. Said again, it is not news.
pub proof fn not_being_able_to_act_is_said_once(s: ClientView, reason: SuspendReason)
    ensures
        ({
            let gone = s.suspend(reason);
            let back = s.resume();
            &&& s.suspended != Some(reason) ==> gone.work == seq![WorkView::ReleaseAll] && gone.out
                == seq![ClientActionView::Send(ClientControlView::Suspended { reason })]
                && !gone.after.active
            &&& gone.after.suspended == Some(reason)
            &&& s.suspended == Some(reason) ==> gone.work.len() == 0 && gone.out.len() == 0
                && gone.after == s
            &&& gone.after.suspend(reason).out.len() == 0
            &&& s.suspended is Some ==> back.out == seq![
                ClientActionView::Send(ClientControlView::Resumed),
            ]
            &&& s.suspended is None ==> back.out.len() == 0
            &&& back.after.suspended is None
            &&& back.after.active == s.active
            &&& back.work.len() == 0
            &&& back.after.resume().out.len() == 0
        }),
{
}

/// A refusal of what was to be put on the screen is remembered in its own words.
/// What went well, what only tidies up, and a key that this platform cannot type
/// are no refusal.
pub proof fn a_refusal_is_remembered(s: ClientView, work: WorkView, outcome: OutcomeView)
    ensures
        ({
            let input = work is MoveTo || work is Button || work is Wheel || work is Key || work
                is Repeat;
            let after = s.note(work, outcome);
            &&& after.active == s.active
            &&& after.suspended == s.suspended
            &&& input && outcome is Refused ==> after.refused == Some(outcome->Refused_0)
            &&& (work is MoveTo || work is Button || work is Wheel) && outcome is Unmapped
                ==> after.refused == Some(outcome->Unmapped_0)
            &&& (work is Key || work is Repeat) && outcome is Unmapped ==> after.refused
                == s.refused
            &&& outcome is Done || !input ==> after.refused == s.refused
        }),
{
}

/// What is to be done is what is seen of it.
pub proof fn work_is_what_is_seen_of_it(work: Work)
    ensures
        match work {
            Work::MoveTo { x, y } => work.deep_view() == (WorkView::MoveTo { x, y }),
            Work::ShowCursor => work.deep_view() is ShowCursor,
            Work::HideCursor => work.deep_view() is HideCursor,
            Work::Button { button, down } => work.deep_view() == (WorkView::Button {
                button,
                down,
            }),
            Work::Wheel(scroll) => work.deep_view() == WorkView::Wheel(scroll),
            Work::Key { key, down } => work.deep_view() == (WorkView::Key { key, down }),
            Work::Repeat { key } => work.deep_view() == (WorkView::Repeat { key }),
            Work::Sync { pressed, buttons } => work.deep_view() == (WorkView::Sync {
                pressed: pressed@,
                buttons: buttons@,
            }),
            Work::ReleaseAll => work.deep_view() is ReleaseAll,
            Work::Flush => work.deep_view() is Flush,
        },
{
}

} // verus!
