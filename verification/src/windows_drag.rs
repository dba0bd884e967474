//! Files being dragged on Windows: picking them up as the cursor leaves, and
//! dropping them where it arrives.
//!
//! Windows tells only the window under the pointer what a drag carries, so the
//! catcher keeps a tiny, all-but-invisible, topmost window of its own hidden
//! away, and when asked stands it under the pointer for a moment. The dragging
//! application notices the window on the next pointer movement and hands it its
//! data; the file list is read then and there, the button is released on the
//! application's behalf so its drag ends on this window, and the drop is
//! answered with "nothing happened" so nothing is moved or copied on this
//! machine.
//!
//! Dropping is the same dance from the other side.

use vstd::prelude::*;

use crate::clipboard::{unusable, ClipboardError, ClipboardErrorView};
use crate::files::{
    drop_list, dropped_paths, hdrop_to_uri_list, local_paths, paths_named, uri_lines, utf8_text,
};
use crate::files_laws::{
    a_drop_list_names_its_paths, a_uri_list_names_its_paths, at_home, holdable, on_windows,
};
use crate::text::lines;
use crate::xdnd::Drive;

verus! {

/// How long the dragging application gets to notice the window, in
/// milliseconds.
///
/// It looks on every pointer movement, and the caller supplies one; the rest
/// is the application's own message loop, which is quick unless it is not.
/// Past this there was no drag, or nothing worth waiting for.
pub const ENTER_PATIENCE: u64 = 250;

/// How long the drop gets to arrive once the button has been released, in
/// milliseconds.
pub const DROP_PATIENCE: u64 = 400;

/// Half the side of the catching window, in pixels. Big enough that a pointer
/// nudged by one pixel is still inside it.
pub const REACH: i32 = 32;

// --- what a drag carries ----------------------------------------------------------

/// The files in a drop list, where it can be read.
pub open spec fn dragged(hdrop: Seq<u8>) -> Option<Seq<Seq<char>>> {
    match dropped_paths(hdrop) {
        Ok(paths) => Some(paths_named(lines(utf8_text(uri_lines(paths))), true)),
        Err(_) => None,
    }
}

/// The files that dragged data carries, if it carries a file list.
pub fn paths_in(hdrop: &[u8]) -> (r: Option<Vec<String>>)
    ensures
        r.deep_view() == dragged(hdrop@),
{
    match hdrop_to_uri_list(hdrop) {
        Ok(list) => Some(local_paths(list.as_slice(), true)),
        Err(_) => None,
    }
}

/// What a drag that has entered carries: nothing, where there is no data or no
/// file list in it.
pub fn entered(hdrop: Option<Vec<u8>>) -> (r: Vec<String>)
    ensures
        r.deep_view() == match hdrop {
            Some(bytes) => match dragged(bytes@) {
                Some(paths) => paths,
                None => seq![],
            },
            None => seq![],
        },
{
    let none: Vec<String> = Vec::new();
    assert(none.deep_view() =~= seq![]);
    match hdrop {
        Some(bytes) => match paths_in(bytes.as_slice()) {
            Some(paths) => paths,
            None => none,
        },
        None => none,
    }
}

/// The files of a drag are the ones its drop list was made of.
pub proof fn a_drag_carries_its_files(paths: Seq<Seq<char>>)
    requires
        forall|i: int|
            0 <= i < paths.len() ==> holdable(#[trigger] paths[i]) && on_windows(paths[i]),
    ensures
        dragged(drop_list(paths)) == Some(paths),
{
    a_drop_list_names_its_paths(paths);
    assert forall|i: int| 0 <= i < paths.len() implies at_home(#[trigger] paths[i], true) by {
        assert(holdable(paths[i]));
    }
    a_uri_list_names_its_paths(paths, true);
}

// --- where the catching window stands -----------------------------------------------

/// Coordinates as they go across to the window's own thread. They may be
/// negative on a desktop that extends left or up, so they go as the bits of a
/// number and come back the same way.
pub fn packed(x: i32, y: i32) -> (r: (usize, isize))
    ensures
        r.0 == (x as u32) as usize,
        r.1 == y as isize,
{
    (x as u32 as usize, y as isize)
}

/// Coordinates as they came across.
pub fn unpacked(w: usize, l: isize) -> (r: (i32, i32))
    ensures
        r.0 == (w as u32) as i32,
        r.1 == l as i32,
{
    (w as u32 as i32, l as i32)
}

/// Coordinates arrive as they were sent, negative ones too.
pub proof fn coordinates_survive_the_crossing(x: i32, y: i32)
    ensures
        (((x as u32) as usize) as u32) as i32 == x,
        (y as isize) as i32 == y,
{
    assert((((x as u32) as usize) as u32) as i32 == x) by (bit_vector);
    assert((y as isize) as i32 == y) by (bit_vector);
}

/// Where the corner of the window goes for a pointer here.
pub fn corner(x: i32, y: i32) -> (r: (i32, i32))
    requires
        x >= i32::MIN + REACH,
        y >= i32::MIN + REACH,
    ensures
        r == ((x - REACH) as i32, (y - REACH) as i32),
{
    (x - REACH, y - REACH)
}

// --- catching -----------------------------------------------------------------------

/// What the dragging application told our window.
#[derive(Debug, PartialEq, Eq)]
pub enum Seen {
    Entered(Vec<String>),
    Dropped,
    /// It told it nothing in the time it had, or the window is gone.
    Nothing,
}

#[verifier::ext_equal]
pub enum SeenView {
    Entered(Seq<Seq<char>>),
    Dropped,
    Nothing,
}

impl DeepView for Seen {
    type V = SeenView;

    open spec fn deep_view(&self) -> SeenView {
        match self {
            Seen::Entered(paths) => SeenView::Entered(paths.deep_view()),
            Seen::Dropped => SeenView::Dropped,
            Seen::Nothing => SeenView::Nothing,
        }
    }
}

/// What to do about it.
#[derive(Clone, Copy, Debug, PartialEq, Eq, Structural)]
pub enum Act {
    /// Go on waiting.
    Wait,
    /// Let go of the button for the application, and wait for the drop.
    Release,
    /// Hide the window; the catch is over.
    Withdraw,
}

/// A drag being caught.
pub struct DropCatcher {
    /// What is being dragged, once that is known.
    paths: Option<Vec<String>>,
    over: bool,
}

#[verifier::ext_equal]
pub struct CatcherView {
    pub paths: Option<Seq<Seq<char>>>,
    pub over: bool,
}

impl View for DropCatcher {
    type V = CatcherView;

    closed spec fn view(&self) -> CatcherView {
        CatcherView { paths: self.paths.deep_view(), over: self.over }
    }
}

/// After the application told our window something. Before a drag has entered,
/// silence means that nothing was being dragged, and the button is left exactly
/// as it was; after that, whether the notice of the drop arrives is a courtesy,
/// not a need.
pub open spec fn seen(c: CatcherView, what: SeenView) -> (CatcherView, Act) {
    if c.over {
        (c, Act::Wait)
    } else {
        match (c.paths, what) {
            (None, SeenView::Entered(paths)) => (
                CatcherView { paths: Some(paths), ..c },
                Act::Release,
            ),
            (None, SeenView::Dropped) => (c, Act::Wait),
            (Some(_), SeenView::Entered(_)) => (c, Act::Wait),
            _ => (CatcherView { over: true, ..c }, Act::Withdraw),
        }
    }
}

impl DropCatcher {
    /// Begin to catch. The application looks at what is under the pointer when
    /// the pointer moves, so it is nudged: once away and back leaves it exactly
    /// where it was.
    pub fn begin(x: i32, y: i32) -> (r: (DropCatcher, Drive, Drive))
        requires
            x < i32::MAX,
        ensures
            r.0@ == (CatcherView { paths: None, over: false }),
            r.1 == Drive::MoveTo((x + 1) as i32, y),
            r.2 == Drive::MoveTo(x, y),
    {
        (DropCatcher { paths: None, over: false }, Drive::MoveTo(x + 1, y), Drive::MoveTo(x, y))
    }

    /// How long to wait for the application to tell something, in milliseconds.
    pub fn patience(&self) -> (r: u64)
        ensures
            r == if self@.paths is None {
                ENTER_PATIENCE
            } else {
                DROP_PATIENCE
            },
    {
        if self.paths.is_none() {
            ENTER_PATIENCE
        } else {
            DROP_PATIENCE
        }
    }

    /// The application has told our window something.
    pub fn saw(&mut self, what: Seen) -> (act: Act)
        ensures
            (final(self)@, act) == seen(old(self)@, what.deep_view()),
    {
        if self.over {
            return Act::Wait;
        }
        match (self.paths.is_some(), what) {
            (false, Seen::Entered(paths)) => {
                self.paths = Some(paths);
                Act::Release
            },
            (false, Seen::Dropped) => Act::Wait,
            (true, Seen::Entered(_)) => Act::Wait,
            _ => {
                self.over = true;
                Act::Withdraw
            },
        }
    }

    /// The files that were dragged, if any were.
    pub fn finish(self) -> (r: Option<Vec<String>>)
        ensures
            r.deep_view() == match self@.paths {
                Some(paths) => if paths.len() == 0 {
                    None
                } else {
                    Some(paths)
                },
                None => None,
            },
    {
        match self.paths {
            Some(paths) => if paths.len() == 0 {
                None
            } else {
                Some(paths)
            },
            None => None,
        }
    }
}

/// The button is let go only once a drag is on our window, and once.
pub proof fn the_button_is_released_for_a_drag_only(c: CatcherView, what: SeenView)
    requires
        seen(c, what).1 == Act::Release,
    ensures
        what is Entered,
        c.paths is None,
        seen(c, what).0.paths is Some,
        forall|later: SeenView| (#[trigger] seen(seen(c, what).0, later)).1 != Act::Release,
{
}

/// Silence always ends a catch, and what was dragged is kept.
pub proof fn silence_ends_a_catch(c: CatcherView)
    requires
        !c.over,
    ensures
        seen(c, SeenView::Nothing) == (CatcherView { over: true, ..c }, Act::Withdraw),
{
}

// --- dropping -----------------------------------------------------------------------

/// What becomes of a drag that is under way.
#[derive(Clone, Copy, Debug, PartialEq, Eq, Structural)]
pub enum Going {
    On,
    Dropped,
    Cancelled,
}

/// The left button, among the keys held.
pub const LEFT_BUTTON: u32 = 1;

/// Whether a drag goes on. The button coming up -- which is the server relaying
/// the person's release -- is the drop.
pub fn query_continue(escape_pressed: bool, keys: u32) -> (r: Going)
    ensures
        r == if escape_pressed {
            Going::Cancelled
        } else if keys % 2 == 0 {
            Going::Dropped
        } else {
            Going::On
        },
{
    assert(keys & LEFT_BUTTON == keys % 2) by (bit_vector)
        requires
            LEFT_BUTTON == 1,
    ;
    if escape_pressed {
        Going::Cancelled
    } else if keys & LEFT_BUTTON == 0 {
        Going::Dropped
    } else {
        Going::On
    }
}

/// How the system says a drag ended.
#[derive(Debug, PartialEq, Eq)]
pub enum Ended {
    /// It was dropped; whether anything took it.
    Dropped { taken: bool },
    Cancelled,
    /// The files could not be made into something to drag.
    Unmade(String),
    /// Dragging them went wrong.
    Failed(String),
}

/// Whether the files were taken where they were dropped.
pub fn drag_outcome(ended: Ended) -> (r: Result<bool, ClipboardError>)
    ensures
        match ended {
            Ended::Dropped { taken } => r == Ok::<bool, ClipboardError>(taken),
            Ended::Cancelled => r == Ok::<bool, ClipboardError>(false),
            Ended::Unmade(why) => r is Err && r->Err_0.deep_view() == ClipboardErrorView::Display(
                "making a data object for the files: "@ + why@,
            ),
            Ended::Failed(why) => r is Err && r->Err_0.deep_view() == ClipboardErrorView::Display(
                "DoDragDrop: "@ + why@,
            ),
        },
{
    match ended {
        Ended::Dropped { taken } => Ok(taken),
        Ended::Cancelled => Ok(false),
        Ended::Unmade(why) => {
            Err(unusable("making a data object for the files: ", why.as_str()))
        },
        Ended::Failed(why) => Err(unusable("DoDragDrop: ", why.as_str())),
    }
}

/// Whether there is anything to drag, where the shell knows so many of the
/// files.
pub fn nameable(known: usize) -> (r: Result<(), ClipboardError>)
    ensures
        match r {
            Ok(_) => known > 0,
            Err(e) => known == 0 && e.deep_view() == ClipboardErrorView::Display(
                "none of the landed files could be named to the shell"@,
            ),
        },
{
    if known == 0 {
        return Err(
            ClipboardError::Display(
                "none of the landed files could be named to the shell".to_owned(),
            ),
        );
    }
    Ok(())
}

} // verus!
