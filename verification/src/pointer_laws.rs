//! What moving the one pointer is for: where it goes, and what every machine is
//! told on the way.

use vstd::prelude::*;

use crate::control::{Key, MouseButton, Scroll, ServerControl, ServerControlView, SuspendReason};
use crate::layout::{Cell, DeviceId, MonitorView, Point, Rect};
use crate::server::{
    first_cell, meant, placed, proper, screen_at, screen_holding, screen_of, Action, ActionView,
    Event, Health, LocalAction, PlacedView, PlacementView, PointerMode, Question, ServerView,
    SightView, Step,
};
use crate::table::{erased_filters, filtered_reads_back, stored_reads_back, value_of};

verus! {

/// Whether a machine is connected and has not said that it cannot act, or is the
/// one with the keyboard itself.
pub open spec fn takes_the_cursor(s: ServerView, device: DeviceId) -> bool {
    device == s.local || value_of(s.clients, device) == Some(Health::Ready)
}

pub open spec fn told(to: DeviceId, msg: ServerControlView) -> ActionView {
    ActionView::Send { to, msg }
}

// --- moving about on one machine ------------------------------------------------

/// While the cursor is on another machine, every motion that stays there moves
/// that machine's pointer, and nothing else, to just where the motion leads.
pub proof fn motion_elsewhere_moves_that_pointer(
    s: ServerView,
    dx: i32,
    dy: i32,
    sight: SightView,
    now: u64,
)
    requires
        sight.motion is Some,
        sight.motion->0.located.device == s.active,
        s.active != s.local,
    ensures
        ({
            let step = s.step(Event::PointerBy { dx, dy }, sight, now);
            let motion = sight.motion->0;
            &&& step.out.len() == 1
            &&& step.out[0] is Send
            &&& step.out[0]->to == s.active
            &&& step.out[0]->msg is MoveTo
            &&& step.out[0]->msg->MoveTo_x == motion.located.local.x
            &&& step.out[0]->msg->MoveTo_y == motion.located.local.y
            &&& step.after.cursor == motion.global
            &&& step.after.active == s.active
            &&& step.after.mode == s.mode
            &&& step.after.pending is None
        }),
{
}

/// While the cursor is at home the system moves it: the server follows and says
/// nothing.
pub proof fn motion_at_home_is_followed(
    s: ServerView,
    dx: i32,
    dy: i32,
    sight: SightView,
    now: u64,
)
    requires
        s.coherent(),
        sight.motion is Some,
        sight.motion->0.located.device == s.local,
        s.active == s.local,
    ensures
        ({
            let step = s.step(Event::PointerBy { dx, dy }, sight, now);
            &&& step.out.len() == 0
            &&& step.after.cursor == sight.motion->0.global
            &&& step.after.active == s.local
            &&& step.after.mode is Local
            &&& step.after.pending is None
        }),
{
}

/// A motion that leads nowhere changes nothing.
pub proof fn motion_nowhere_changes_nothing(
    s: ServerView,
    dx: i32,
    dy: i32,
    sight: SightView,
    now: u64,
)
    requires
        sight.motion is None,
    ensures
        s.step(Event::PointerBy { dx, dy }, sight, now).out.len() == 0,
        s.step(Event::PointerBy { dx, dy }, sight, now).after == s,
{
}

// --- crossing ---------------------------------------------------------------------

/// What is seen of a crossing: the machine left is told, then the machine
/// arrived on, which is given the place and everything held down.
pub open spec fn crossed(s: ServerView, step: Step, target: DeviceId, global: Point, at: Point) -> bool {
    &&& step.after.active == target
    &&& step.after.cursor == global
    &&& step.after.pending is None
    &&& step.after.last_tap is None
    &&& (step.after.mode is Captured) == (target != s.local)
    &&& step.after.local == s.local
    &&& step.after.clients == s.clients
    &&& step.after.settings == s.settings
    &&& step.after.placements == s.placements
    &&& step.after.keys == s.keys
    &&& step.after.buttons == s.buttons
    &&& step.out.len() == if target == s.local {
        3int
    } else {
        2
    }
    &&& step.out[0] == if s.active == s.local {
        ActionView::Local(LocalAction::SetPointerMode(PointerMode::Captured))
    } else {
        told(s.active, ServerControlView::Leave)
    }
    &&& target == s.local ==> step.out[1] == ActionView::Local(
        LocalAction::SetPointerMode(PointerMode::Local),
    ) && step.out[2] == ActionView::Local(LocalAction::WarpCursor { x: at.x, y: at.y })
    &&& target != s.local ==> step.out[1] == told(
        target,
        ServerControlView::Enter { at, pressed: s.keys, buttons: s.buttons },
    )
}

/// With nothing set to hold it back, the cursor crosses to whatever machine a
/// motion leads to that can take it.
pub proof fn an_open_edge_is_crossed(
    s: ServerView,
    dx: i32,
    dy: i32,
    sight: SightView,
    now: u64,
)
    requires
        s.settings.switch_delay == 0,
        s.settings.switch_double_tap == 0,
        sight.motion is Some,
        sight.motion->0.located.device != s.active,
        takes_the_cursor(s, sight.motion->0.located.device),
    ensures
        ({
            let motion = sight.motion->0;
            crossed(
                s,
                s.step(Event::PointerBy { dx, dy }, sight, now),
                motion.located.device,
                motion.global,
                motion.located.local,
            )
        }),
{
}

/// With a delay, an edge first comes to be held where a motion strikes it, and
/// from that moment; it gives way once it has been held that long, and not
/// before.
pub proof fn an_edge_gives_way_once_it_is_held(
    s: ServerView,
    dx: i32,
    dy: i32,
    sight: SightView,
    now: u64,
)
    requires
        s.settings.switch_delay > 0,
        s.settings.switch_double_tap == 0,
        sight.motion is Some,
        sight.motion->0.located.device != s.active,
        takes_the_cursor(s, sight.motion->0.located.device),
    ensures
        ({
            let motion = sight.motion->0;
            let target = motion.located.device;
            let step = s.step(Event::PointerBy { dx, dy }, sight, now);
            let held = s.pending is Some && s.pending->0.target == target;
            &&& held && now >= s.pending->0.since + s.settings.switch_delay ==> crossed(
                s,
                step,
                target,
                motion.global,
                motion.located.local,
            )
            &&& !(held && now >= s.pending->0.since + s.settings.switch_delay) ==> {
                &&& step.after.active == s.active
                &&& step.after.mode == s.mode
                &&& step.after.pending is Some
                &&& step.after.pending->0.target == target
                &&& step.after.pending->0.at == motion.global
                &&& step.after.pending->0.since == if held {
                    s.pending->0.since
                } else {
                    now
                }
            }
        }),
{
}

/// With a double tap, an edge gives way to a second strike within the window,
/// and not to a first, nor to one too late, nor to one at another edge; and each
/// strike that is not let through is remembered.
pub proof fn an_edge_gives_way_to_a_second_strike(
    s: ServerView,
    dx: i32,
    dy: i32,
    sight: SightView,
    now: u64,
)
    requires
        s.settings.switch_delay == 0,
        s.settings.switch_double_tap > 0,
        sight.motion is Some,
        sight.motion->0.located.device != s.active,
        takes_the_cursor(s, sight.motion->0.located.device),
    ensures
        ({
            let motion = sight.motion->0;
            let target = motion.located.device;
            let step = s.step(Event::PointerBy { dx, dy }, sight, now);
            let again = s.last_tap is Some && s.last_tap->0.device == target && now
                <= s.last_tap->0.when + s.settings.switch_double_tap;
            &&& again ==> crossed(s, step, target, motion.global, motion.located.local)
            &&& !again ==> step.after.active == s.active && step.after.last_tap is Some
                && step.after.last_tap->0.when == now && step.after.last_tap->0.device == target
        }),
{
}

/// As time passes, a cursor that waits at an edge is let through once the edge
/// has been held long enough, to where it was going; until then nothing happens,
/// and a machine that cannot take it any more is given up.
pub proof fn a_waiting_cursor_is_let_through_in_time(s: ServerView, sight: SightView, now: u64)
    ensures
        ({
            let step = s.step(Event::Tick, sight, now);
            &&& s.pending is None || s.settings.switch_delay == 0 || now < s.pending->0.since
                + s.settings.switch_delay ==> step.after == s && step.out.len() == 0
            &&& s.pending is Some && s.settings.switch_delay > 0 && now >= s.pending->0.since
                + s.settings.switch_delay ==> {
                if takes_the_cursor(s, s.pending->0.target) && sight.located is Some {
                    crossed(
                        s,
                        step,
                        s.pending->0.target,
                        s.pending->0.at,
                        sight.located->0.local,
                    )
                } else {
                    &&& step.out.len() == 0
                    &&& step.after.active == s.active
                    &&& step.after.pending is None
                }
            }
        }),
{
    assert(s.step(Event::Tick, sight, now).after == s.settle_pending(sight, now).after);
}

// --- stopping at an edge ------------------------------------------------------------

proof fn first_cell_is_the_first(cells: Seq<Cell>, wanted: spec_fn(Cell) -> bool, i: int)
    requires
        0 <= i < cells.len(),
        wanted(cells[i]),
        forall|j: int| 0 <= j < i ==> !wanted(#[trigger] cells[j]),
    ensures
        first_cell(cells, wanted) == Some(cells[i]),
    decreases cells.len(),
{
    if i > 0 {
        assert(!wanted(cells[0]));
        let rest = cells.drop_first();
        assert forall|j: int| 0 <= j < i - 1 implies !wanted(#[trigger] rest[j]) by {
            assert(rest[j] == cells[j + 1]);
        }
        first_cell_is_the_first(rest, wanted, i - 1);
    }
}

proof fn no_cell_is_found(cells: Seq<Cell>, wanted: spec_fn(Cell) -> bool)
    requires
        forall|j: int| 0 <= j < cells.len() ==> !wanted(#[trigger] cells[j]),
    ensures
        first_cell(cells, wanted) is None,
    decreases cells.len(),
{
    if cells.len() > 0 {
        assert(!wanted(cells[0]));
        let rest = cells.drop_first();
        assert forall|j: int| 0 <= j < rest.len() implies !wanted(#[trigger] rest[j]) by {
            assert(rest[j] == cells[j + 1]);
        }
        no_cell_is_found(rest, wanted);
    }
}

/// Whether a cursor that was sent beyond a screen is as close to where it was
/// sent as that screen allows.
pub open spec fn pressed_against(screen: Rect, sent: Point, cursor: Point) -> bool {
    &&& screen.x <= cursor.x < screen.x + screen.w
    &&& screen.y <= cursor.y < screen.y + screen.h
    &&& sent.x < screen.x ==> cursor.x == screen.x
    &&& sent.x >= screen.x + screen.w ==> cursor.x == screen.x + screen.w - 1
    &&& screen.x <= sent.x < screen.x + screen.w ==> cursor.x == sent.x
    &&& sent.y < screen.y ==> cursor.y == screen.y
    &&& sent.y >= screen.y + screen.h ==> cursor.y == screen.y + screen.h - 1
    &&& screen.y <= sent.y < screen.y + screen.h ==> cursor.y == sent.y
}

/// A cursor that is not let through stops against the edge of the screen it is
/// on. Where that moved it, the machine it is on is told the place that the
/// arrangement found for it, and nobody else anything; where it did not, nobody
/// is told anything. And the place the arrangement is asked about is that place.
pub proof fn a_cursor_not_let_through_stops_at_the_edge(
    s: ServerView,
    dx: i32,
    dy: i32,
    sight: SightView,
    now: u64,
    i: int,
)
    requires
        s.coherent(),
        proper(sight.cells),
        sight.motion is Some,
        sight.motion->0.located.device != s.active,
        s.step(Event::PointerBy { dx, dy }, sight, now).after.active == s.active,
        0 <= i < sight.cells.len(),
        sight.cells[i].device == s.active,
        sight.cells[i].global.has(s.cursor),
        forall|j: int|
            0 <= j < i ==> !((#[trigger] sight.cells[j]).device == s.active
                && sight.cells[j].global.has(s.cursor)),
    ensures
        ({
            let step = s.step(Event::PointerBy { dx, dy }, sight, now);
            let beyond = sight.motion->0.global;
            let at = step.after.cursor;
            &&& pressed_against(sight.cells[i].global, beyond, at)
            &&& at == s.cursor ==> step.out.len() == 0
            &&& at != s.cursor ==> s.second_question(sight.cells, sight.motion, now)
                == Question::Locate(at)
            &&& at != s.cursor && sight.located is Some && sight.located->0.device == s.active
                && s.active != s.local ==> step.out == seq![
                told(
                    s.active,
                    ServerControlView::MoveTo {
                        x: sight.located->0.local.x,
                        y: sight.located->0.local.y,
                    },
                ),
            ]
            &&& at != s.cursor && (sight.located is None || (s.active == s.local
                && sight.located->0.device == s.local)) ==> step.out.len() == 0
        }),
{
    assert(sight.cells[i].proper());
    first_cell_is_the_first(sight.cells, screen_at(s.active, s.cursor), i);
    let step = s.step(Event::PointerBy { dx, dy }, sight, now);
    if step.after.cursor != s.cursor && sight.located is Some && sight.located->0.device == s.active
        && s.active != s.local {
        assert(step.out =~= seq![
            told(
                s.active,
                ServerControlView::MoveTo {
                    x: sight.located->0.local.x,
                    y: sight.located->0.local.y,
                },
            ),
        ]);
    }
}

/// A cursor that is on none of its machine's screens any more is brought to the
/// first of them.
pub proof fn a_lost_cursor_stops_on_the_first_screen(
    s: ServerView,
    dx: i32,
    dy: i32,
    sight: SightView,
    now: u64,
    i: int,
)
    requires
        s.coherent(),
        proper(sight.cells),
        sight.motion is Some,
        sight.motion->0.located.device != s.active,
        s.step(Event::PointerBy { dx, dy }, sight, now).after.active == s.active,
        0 <= i < sight.cells.len(),
        sight.cells[i].device == s.active,
        forall|j: int| 0 <= j < i ==> (#[trigger] sight.cells[j]).device != s.active,
        forall|j: int|
            0 <= j < sight.cells.len() ==> !((#[trigger] sight.cells[j]).device == s.active
                && sight.cells[j].global.has(s.cursor)),
    ensures
        pressed_against(
            sight.cells[i].global,
            sight.motion->0.global,
            s.step(Event::PointerBy { dx, dy }, sight, now).after.cursor,
        ),
{
    assert(sight.cells[i].proper());
    no_cell_is_found(sight.cells, screen_at(s.active, s.cursor));
    first_cell_is_the_first(sight.cells, screen_of(s.active), i);
}

// --- keys, buttons and the wheel ------------------------------------------------------

/// What is pressed and turned reaches the machine with the cursor as it was
/// pressed and turned.
pub proof fn input_is_passed_on_as_it_is(
    s: ServerView,
    key: Key,
    button: MouseButton,
    down: bool,
    repeat: bool,
    scroll: Scroll,
    sight: SightView,
    now: u64,
)
    requires
        s.active != s.local,
    ensures
        s.step(Event::Key { key, down, repeat }, sight, now).out == seq![
            told(s.active, ServerControlView::KeyEvent { key, down, repeat }),
        ],
        s.step(Event::Button { button, down }, sight, now).out == seq![
            told(s.active, ServerControlView::Button { button, down }),
        ],
        s.step(Event::Wheel(scroll), sight, now).out == seq![
            told(s.active, ServerControlView::Wheel(scroll)),
        ],
        s.step(Event::Wheel(scroll), sight, now).after == s,
{
    assert(s.step(Event::Key { key, down, repeat }, sight, now).out =~= seq![
        told(s.active, ServerControlView::KeyEvent { key, down, repeat }),
    ]);
}

// --- machines coming and going ---------------------------------------------------------

/// A machine that arrives is told to let go of whatever it holds, and from then
/// on it can take the cursor; nothing else about anything changes.
pub proof fn an_arrival_starts_clean(
    s: ServerView,
    device: DeviceId,
    other: DeviceId,
    sight: SightView,
    now: u64,
)
    ensures
        ({
            let step = s.step(Event::ClientUp { device }, sight, now);
            &&& step.out == seq![told(device, ServerControlView::ReleaseAll)]
            &&& value_of(step.after.clients, device) == Some(Health::Ready)
            &&& other != device ==> value_of(step.after.clients, other) == value_of(
                s.clients,
                other,
            )
            &&& step.after == (ServerView { clients: step.after.clients, ..s })
        }),
{
    stored_reads_back(s.clients, device, Health::Ready, device);
    stored_reads_back(s.clients, device, Health::Ready, other);
}

/// How a machine stands follows from what it said last: gone once it has gone,
/// unable once it has said so, able again once it has said that, if it is
/// connected at all. It says nothing about any other machine.
pub proof fn how_a_machine_stands(
    s: ServerView,
    event: Event,
    device: DeviceId,
    sight: SightView,
    now: u64,
)
    requires
        s.coherent(),
    ensures
        ({
            let stood = value_of(s.clients, device);
            value_of(s.step(event, sight, now).after.clients, device) == match event {
                Event::ClientUp { device: d } if d == device => Some(Health::Ready),
                Event::ClientMonitors { device: d } if d == device => if stood is Some {
                    stood
                } else {
                    Some(Health::Ready)
                },
                Event::ClientDown { device: d } if d == device => None,
                Event::ClientSuspended { device: d, .. } if d == device => Some(Health::Suspended),
                Event::ClientResumed { device: d } if d == device => if stood is Some {
                    Some(Health::Ready)
                } else {
                    None
                },
                _ => stood,
            }
        }),
{
    match event {
        Event::ClientUp { device: d } => {
            stored_reads_back(s.clients, d, Health::Ready, device);
        },
        Event::ClientMonitors { device: d } => {
            stored_reads_back(s.clients, d, Health::Ready, device);
        },
        Event::ClientDown { device: d } => {
            let other = |e: (DeviceId, Health)| e.0 != d;
            erased_filters(s.clients, d, other);
            filtered_reads_back(s.clients, other, device);
        },
        Event::ClientSuspended { device: d, reason } => {
            stored_reads_back(s.clients, d, Health::Suspended, device);
        },
        Event::ClientResumed { device: d } => {
            stored_reads_back(s.clients, d, Health::Ready, device);
        },
        _ => {},
    }
}

/// The cursor of a machine that goes away, or cannot act, comes home: input is
/// let through here again, and the pointer is put where the arrangement says the
/// middle of the first screen here is, which is what it is asked.
pub proof fn the_cursor_comes_home(
    s: ServerView,
    event: Event,
    sight: SightView,
    now: u64,
    i: int,
)
    requires
        s.coherent(),
        s.active != s.local,
        event is ClientDown && event->ClientDown_device == s.active || event is ClientSuspended
            && event->ClientSuspended_device == s.active,
        proper(sight.cells),
        0 <= i < sight.cells.len(),
        sight.cells[i].device == s.local,
        forall|j: int| 0 <= j < i ==> (#[trigger] sight.cells[j]).device != s.local,
    ensures
        ({
            let step = s.step(event, sight, now);
            let home = sight.cells[i].global;
            let middle = Point { x: (home.x + home.w / 2) as i32, y: (home.y + home.h / 2) as i32 };
            &&& s.first_question(event, sight.cells, now) == Question::Locate(middle)
            &&& home.has(middle)
            &&& step.after.active == s.local
            &&& step.after.mode is Local
            &&& step.after.cursor == middle
            &&& step.after.pending is None
            &&& step.after.keys == s.keys
            &&& step.after.buttons == s.buttons
            &&& step.out.len() >= 1
            &&& step.out[0] == ActionView::Local(LocalAction::SetPointerMode(PointerMode::Local))
            &&& sight.located is Some ==> step.out.len() == 2 && step.out[1] == ActionView::Local(
                LocalAction::WarpCursor {
                    x: sight.located->0.local.x,
                    y: sight.located->0.local.y,
                },
            )
            &&& sight.located is None ==> step.out.len() == 1
        }),
{
    assert(sight.cells[i].proper());
    first_cell_is_the_first(sight.cells, screen_of(s.local), i);
}

/// A machine that the cursor is not on comes, goes and says what it likes
/// without the cursor stirring.
pub proof fn a_machine_elsewhere_leaves_the_cursor_alone(
    s: ServerView,
    event: Event,
    device: DeviceId,
    sight: SightView,
    now: u64,
)
    requires
        device != s.active,
        event is ClientDown && event->ClientDown_device == device || event is ClientSuspended
            && event->ClientSuspended_device == device || event is ClientResumed
            && event->ClientResumed_device == device,
    ensures
        ({
            let step = s.step(event, sight, now);
            &&& step.out.len() == 0
            &&& step.after.active == s.active
            &&& step.after.cursor == s.cursor
            &&& step.after.mode == s.mode
            &&& s.pending is Some && s.pending->0.target != device ==> step.after.pending
                == s.pending
        }),
{
}

/// When displays change, the cursor goes to the nearest place that is on one, as
/// the arrangement finds it: without a word where its machine still has it, and
/// by crossing where another machine that can take it has. The place asked about
/// is where the cursor is.
pub proof fn a_display_change_settles_the_cursor(
    s: ServerView,
    device: DeviceId,
    sight: SightView,
    now: u64,
)
    ensures
        ({
            let step = s.step(Event::ClientMonitors { device }, sight, now);
            let at = sight.snapped->0;
            &&& s.first_question(Event::ClientMonitors { device }, sight.cells, now)
                == Question::Snap(s.cursor)
            &&& sight.snapped is None ==> step.out.len() == 0 && step.after.cursor == s.cursor
                && step.after.active == s.active
            &&& sight.snapped is Some && at.located.device == s.active ==> step.out.len() == 0
                && step.after.cursor == at.global && step.after.active == s.active
            &&& sight.snapped is Some && at.located.device != s.active && takes_the_cursor(
                s,
                at.located.device,
            ) ==> step.after.active == at.located.device && step.after.cursor == at.global
                && step.out.len() >= 2 && (at.located.device != s.local ==> step.out[1] == told(
                at.located.device,
                ServerControlView::Enter {
                    at: at.located.local,
                    pressed: s.keys,
                    buttons: s.buttons,
                },
            ))
            &&& sight.snapped is Some && at.located.device != s.active && at.located.device
                != device && !takes_the_cursor(s, at.located.device) ==> step.out.len() == 0
                && step.after.cursor == s.cursor && step.after.active == s.active
        }),
{
    stored_reads_back(s.clients, device, Health::Ready, device);
    if sight.snapped is Some {
        stored_reads_back(s.clients, device, Health::Ready, sight.snapped->0.located.device);
    }
}

// --- what the arrangement is asked --------------------------------------------------------

/// The arrangement is asked where the motion leads from where the cursor is.
pub proof fn a_motion_is_asked_about_from_where_the_cursor_is(
    s: ServerView,
    dx: i32,
    dy: i32,
    cells: Seq<Cell>,
    now: u64,
)
    ensures
        s.first_question(Event::PointerBy { dx, dy }, cells, now) == (Question::Resolve {
            from: s.cursor,
            dx,
            dy,
        }),
{
}

/// A position reported while the cursor is at home is asked about on the screen
/// here that has it, and the cursor is then where the arrangement says; nothing
/// is asked, and the cursor stays, while it is elsewhere or where no screen here
/// has the position.
pub proof fn a_reported_position_is_believed(
    s: ServerView,
    x: i32,
    y: i32,
    sight: SightView,
    now: u64,
    i: int,
)
    requires
        s.coherent(),
    ensures
        ({
            let event = Event::PointerAt { x, y };
            let after = s.step(event, sight, now).after;
            let question = s.first_question(event, sight.cells, now);
            let here = |j: int| sight.cells[j].device == s.local && sight.cells[j].local.has(
                Point { x, y },
            );
            &&& s.active == s.local && 0 <= i < sight.cells.len() && here(i) && (forall|j: int|
                0 <= j < i ==> !#[trigger] here(j)) ==> question == (Question::ToDesktop {
                local: sight.cells[i].local,
                global: sight.cells[i].global,
                at: Point { x, y },
            }) && (sight.mapped is Some ==> after.cursor == sight.mapped->0)
            &&& s.active != s.local || (forall|j: int|
                0 <= j < sight.cells.len() ==> !#[trigger] here(j)) ==> question
                == Question::Nothing && after == s
        }),
{
    let here = |j: int| sight.cells[j].device == s.local && sight.cells[j].local.has(
        Point { x, y },
    );
    let wanted = screen_holding(s.local, Point { x, y });
    if 0 <= i < sight.cells.len() && here(i) && (forall|j: int| 0 <= j < i ==> !#[trigger] here(j)) {
        assert forall|j: int| 0 <= j < i implies !wanted(#[trigger] sight.cells[j]) by {
            assert(!here(j));
        }
        first_cell_is_the_first(sight.cells, wanted, i);
    }
    if forall|j: int| 0 <= j < sight.cells.len() ==> !#[trigger] here(j) {
        assert forall|j: int| 0 <= j < sight.cells.len() implies !wanted(
            #[trigger] sight.cells[j],
        ) by {
            assert(!here(j));
        }
        no_cell_is_found(sight.cells, wanted);
    }
}

/// A cursor that is to be let through is asked about where it waits to go.
pub proof fn a_waiting_cursor_is_asked_about_where_it_goes(
    s: ServerView,
    cells: Seq<Cell>,
    now: u64,
)
    ensures
        s.pending is Some && s.settings.switch_delay > 0 && now >= s.pending->0.since
            + s.settings.switch_delay && takes_the_cursor(s, s.pending->0.target)
            ==> s.first_question(Event::Tick, cells, now) == Question::Locate(s.pending->0.at),
        s.pending is None || now < s.pending->0.since + s.settings.switch_delay
            ==> s.first_question(Event::Tick, cells, now) == Question::Nothing,
{
}

// --- the arrangement in the configuration --------------------------------------------------

/// Whether a placement means this monitor.
pub open spec fn fits(p: PlacementView, m: MonitorView) -> bool {
    m.id == p.monitor || (p.monitor == "primary"@ && m.primary)
}

proof fn meant_is_the_first_that_fits(p: PlacementView, monitors: Seq<MonitorView>)
    ensures
        meant(p, monitors) is Some ==> exists|i: int|
            0 <= i < monitors.len() && fits(p, #[trigger] monitors[i]) && monitors[i].id == meant(
                p,
                monitors,
            )->0 && forall|j: int| 0 <= j < i ==> !fits(p, #[trigger] monitors[j]),
        meant(p, monitors) is None ==> forall|i: int|
            0 <= i < monitors.len() ==> !fits(p, #[trigger] monitors[i]),
    decreases monitors.len(),
{
    if monitors.len() > 0 {
        let rest = monitors.drop_first();
        if fits(p, monitors[0]) {
            assert(monitors[0].id == meant(p, monitors)->0);
        } else {
            meant_is_the_first_that_fits(p, rest);
            if meant(p, rest) is Some {
                let i = choose|i: int|
                    0 <= i < rest.len() && fits(p, #[trigger] rest[i]) && rest[i].id == meant(
                        p,
                        rest,
                    )->0 && forall|j: int| 0 <= j < i ==> !fits(p, #[trigger] rest[j]);
                assert(monitors[i + 1] == rest[i]);
                assert forall|j: int| 0 <= j < i + 1 implies !fits(p, #[trigger] monitors[j]) by {
                    if j > 0 {
                        assert(monitors[j] == rest[j - 1]);
                    }
                }
            } else {
                assert forall|i: int| 0 <= i < monitors.len() implies !fits(
                    p,
                    #[trigger] monitors[i],
                ) by {
                    if i > 0 {
                        assert(monitors[i] == rest[i - 1]);
                    }
                }
            }
        }
    }
}

/// Each monitor is put where a placement for its machine says: under its own
/// name, or as the primary one, the first that fits.
pub proof fn monitors_go_where_the_configuration_says(
    placements: Seq<PlacementView>,
    name: Seq<char>,
    monitors: Seq<MonitorView>,
    k: int,
)
    requires
        0 <= k < placed(placements, name, monitors).len(),
    ensures
        exists|j: int, i: int|
            0 <= j < placements.len() && 0 <= i < monitors.len() && (#[trigger] placements[j]).machine
                == name && fits(placements[j], #[trigger] monitors[i]) && placed(
                placements,
                name,
                monitors,
            )[k] == (PlacedView { monitor: monitors[i].id, global: placements[j].global }) && forall|
                h: int,
            |
                0 <= h < i ==> !fits(placements[j], #[trigger] monitors[h]),
    decreases placements.len(),
{
    let p = placements.last();
    let before = placed(placements.drop_last(), name, monitors);
    meant_is_the_first_that_fits(p, monitors);
    if k < before.len() {
        monitors_go_where_the_configuration_says(placements.drop_last(), name, monitors, k);
        let (j, i) = choose|j: int, i: int|
            0 <= j < placements.drop_last().len() && 0 <= i < monitors.len()
                && (#[trigger] placements.drop_last()[j]).machine == name && fits(
                placements.drop_last()[j],
                #[trigger] monitors[i],
            ) && before[k] == (PlacedView {
                monitor: monitors[i].id,
                global: placements.drop_last()[j].global,
            }) && forall|h: int|
                0 <= h < i ==> !fits(placements.drop_last()[j], #[trigger] monitors[h]);
        assert(placements[j] == placements.drop_last()[j]);
        assert(fits(placements[j], monitors[i]));
    } else {
        let i = choose|i: int|
            0 <= i < monitors.len() && fits(p, #[trigger] monitors[i]) && monitors[i].id == meant(
                p,
                monitors,
            )->0 && forall|j: int| 0 <= j < i ==> !fits(p, #[trigger] monitors[j]);
        assert(placements[placements.len() - 1].machine == name);
        assert(fits(placements[placements.len() - 1], monitors[i]));
    }
}

/// No placement for a machine is passed over that fits a monitor it has.
pub proof fn no_placement_is_passed_over(
    placements: Seq<PlacementView>,
    name: Seq<char>,
    monitors: Seq<MonitorView>,
    j: int,
    i: int,
)
    requires
        0 <= j < placements.len(),
        0 <= i < monitors.len(),
        placements[j].machine == name,
        fits(placements[j], monitors[i]),
    ensures
        exists|k: int|
            0 <= k < placed(placements, name, monitors).len() && (#[trigger] placed(
                placements,
                name,
                monitors,
            )[k]).global == placements[j].global,
    decreases placements.len(),
{
    let p = placements.last();
    let before = placed(placements.drop_last(), name, monitors);
    let all = placed(placements, name, monitors);
    meant_is_the_first_that_fits(p, monitors);
    if j < placements.len() - 1 {
        no_placement_is_passed_over(placements.drop_last(), name, monitors, j, i);
        let k = choose|k: int|
            0 <= k < before.len() && (#[trigger] before[k]).global
                == placements.drop_last()[j].global;
        assert(all[k] == before[k]);
    } else {
        assert(meant(p, monitors) is Some);
        assert(all[all.len() - 1].global == p.global);
    }
}

// --- saying it -------------------------------------------------------------------------------

/// What is done is what is seen of it.
pub proof fn an_action_is_what_is_seen_of_it(action: Action)
    ensures
        match action {
            Action::Send { to, msg } => action.deep_view() == told(to, msg.deep_view()),
            Action::Local(local) => action.deep_view() == ActionView::Local(local),
        },
{
}

/// What is said about the pointer and the keys is what is seen of it.
pub proof fn a_message_is_what_is_seen_of_it(msg: ServerControl)
    ensures
        match msg {
            ServerControl::Enter { at, pressed, buttons } => msg.deep_view()
                == (ServerControlView::Enter { at, pressed: pressed@, buttons: buttons@ }),
            ServerControl::MoveTo { x, y } => msg.deep_view() == (ServerControlView::MoveTo {
                x,
                y,
            }),
            ServerControl::Button { button, down } => msg.deep_view()
                == (ServerControlView::Button { button, down }),
            ServerControl::Wheel(scroll) => msg.deep_view() == ServerControlView::Wheel(scroll),
            ServerControl::KeyEvent { key, down, repeat } => msg.deep_view()
                == (ServerControlView::KeyEvent { key, down, repeat }),
            ServerControl::SyncKeys { pressed, buttons } => msg.deep_view()
                == (ServerControlView::SyncKeys { pressed: pressed@, buttons: buttons@ }),
            ServerControl::Ping { id } => msg.deep_view() == (ServerControlView::Ping { id }),
            ServerControl::Pong { id } => msg.deep_view() == (ServerControlView::Pong { id }),
            ServerControl::Leave => msg.deep_view() is Leave,
            ServerControl::ReleaseAll => msg.deep_view() is ReleaseAll,
            ServerControl::Goodbye => msg.deep_view() is Goodbye,
            _ => true,
        },
{
}

// --- what is remembered ------------------------------------------------------------

/// A cursor that is not let through an edge is remembered as waiting there, from
/// when it first came to it; and, where strikes count, so is this one, with its
/// time.
pub proof fn a_strike_is_remembered(s: ServerView, dx: i32, dy: i32, sight: SightView, now: u64)
    requires
        sight.motion is Some,
        sight.motion->0.located.device != s.active,
        s.usable(sight.motion->0.located.device),
        !s.may_cross(sight.motion->0.located.device, now),
    ensures
        ({
            let motion = sight.motion->0;
            let target = motion.located.device;
            let after = s.step(Event::PointerBy { dx, dy }, sight, now).after;
            let waited = s.pending is Some && s.pending->0.target == target;
            &&& after.pending is Some
            &&& after.pending->0.target == target
            &&& after.pending->0.at == motion.global
            &&& waited ==> after.pending->0.since == s.pending->0.since
            &&& !waited ==> after.pending->0.since == now
            &&& s.settings.switch_double_tap != 0 ==> after.last_tap is Some
                && after.last_tap->0.device == target && after.last_tap->0.when == now
            &&& s.settings.switch_double_tap == 0 ==> after.last_tap == s.last_tap
            &&& after.active == s.active && after.mode == s.mode
        }),
{
}

/// A cursor that arrives somewhere is waiting nowhere, and the strikes that led
/// there are forgotten: the way back takes its own.
pub proof fn an_arrival_forgets_the_strikes(
    s: ServerView,
    event: Event,
    sight: SightView,
    now: u64,
)
    requires
        s.step(event, sight, now).after.active != s.active,
    ensures
        s.step(event, sight, now).after.pending is None,
        s.step(event, sight, now).after.last_tap is None,
{
}

/// A cursor that waits to cross to a machine waits no longer once that machine
/// cannot take it; one that waits for another machine goes on waiting, unless the
/// cursor is called home.
pub proof fn who_is_still_waited_for(
    s: ServerView,
    device: DeviceId,
    reason: SuspendReason,
    sight: SightView,
    now: u64,
)
    requires
        s.pending is Some,
        s.active != device,
    ensures
        ({
            let down = s.step(Event::ClientDown { device }, sight, now).after;
            let suspended = s.step(Event::ClientSuspended { device, reason }, sight, now).after;
            &&& s.pending->0.target == device ==> down.pending is None && suspended.pending is None
            &&& s.pending->0.target != device ==> down.pending == s.pending && suspended.pending
                == s.pending
            &&& down.last_tap == s.last_tap && suspended.last_tap == s.last_tap
        }),
{
}

/// A wait that comes to its end at a machine that cannot take the cursor, or at a
/// place that is gone, is over, and nothing comes of it; one that has not come to
/// its end goes on.
pub proof fn a_wait_that_leads_nowhere_is_over(s: ServerView, sight: SightView, now: u64)
    requires
        s.pending is Some,
        s.settings.switch_delay != 0,
    ensures
        ({
            let step = s.step(Event::Tick, sight, now);
            let long_enough = now >= s.pending->0.since && now - s.pending->0.since
                >= s.settings.switch_delay;
            &&& !long_enough ==> step.after == s && step.out.len() == 0
            &&& long_enough && (!s.usable(s.pending->0.target) || sight.located is None)
                ==> step.after == (ServerView { pending: None, ..s }) && step.out.len() == 0
        }),
{
}

/// Moving and waiting change nothing but where the cursor is and what it waits
/// for: what is held down, who is connected and how things are set stay.
pub proof fn moving_changes_nothing_else(s: ServerView, event: Event, sight: SightView, now: u64)
    requires
        event is PointerBy || event is PointerAt || event is Tick || event is Wheel,
    ensures
        ({
            let after = s.step(event, sight, now).after;
            &&& after.local == s.local
            &&& after.settings == s.settings
            &&& after.clients == s.clients
            &&& after.keys == s.keys
            &&& after.buttons == s.buttons
            &&& after.placements == s.placements
        }),
{
}

/// What is pressed and let go of changes what is held down, and nothing else; and
/// a machine that comes, goes or changes leaves that alone.
pub proof fn pressing_changes_nothing_else(s: ServerView, event: Event, sight: SightView, now: u64)
    ensures
        ({
            let after = s.step(event, sight, now).after;
            &&& event is Button ==> after == (ServerView { buttons: after.buttons, ..s })
            &&& event is Key ==> after == (ServerView { keys: after.keys, ..s })
            &&& event is Wheel ==> after == s
            &&& event is ClientUp || event is ClientDown || event is ClientSuspended
                || event is ClientResumed || event is ClientMonitors ==> after.keys == s.keys
                && after.buttons == s.buttons && after.settings == s.settings && after.placements
                == s.placements && after.local == s.local
            &&& event is ClientUp || event is ClientResumed ==> after == (ServerView {
                clients: after.clients,
                ..s
            })
        }),
{
}

} // verus!
