//! Whether input put on this machine's screen lands.
//!
//! Windows refuses input in ways that say nothing at all: a prompt takes over
//! the screen, or a window of higher privilege is in front, and what is typed
//! goes nowhere. Saying so plainly beats a pointer that has frozen for no
//! stated reason.

use vstd::prelude::*;

use crate::control::SuspendReason;
use crate::text::{add_text, chars_of, text_of};

verus! {

/// Where input on this machine is going.
#[derive(Debug, PartialEq, Eq)]
pub enum InputDesktop {
    Ours,
    /// To the desktop of this name.
    Elsewhere(String),
    /// To one this program is not allowed on.
    OutOfReach,
}

/// A program in front that outranks this one, and what the two levels are
/// called.
#[derive(Debug, PartialEq, Eq)]
pub struct Outranked {
    pub program: String,
    pub theirs: String,
    pub ours: String,
}

/// The level from which nothing in the session outranks a program.
pub const HIGH_LEVEL: u32 = 0x3000;

pub open spec fn elsewhere_text(name: Seq<char>) -> Seq<char> {
    "input is going to the "@ + name
        + " desktop -- a UAC prompt, the lock screen or Ctrl+Alt+Del -- which a program in the user's session cannot reach"@
}

pub open spec fn outranked_text(program: Seq<char>, theirs: Seq<char>, ours: Seq<char>) -> Seq<char> {
    program + " is in front and runs at a "@ + theirs + " integrity level while smkvm runs at a "@
        + ours
        + " one, so Windows refuses input from smkvm. Click a different window, or run smkvm as administrator (a scheduled task with 'run with highest privileges') so it outranks everything it has to type into"@
}

/// What is in the way, and what to say of it.
pub open spec fn in_the_way(desktop: InputDesktop, front: Option<Outranked>, can_inject: bool) -> Option<
    (SuspendReason, Seq<char>),
> {
    match desktop {
        InputDesktop::Elsewhere(name) => Some(
            (SuspendReason::SecureDesktop, elsewhere_text(name@)),
        ),
        InputDesktop::OutOfReach => Some(
            (
                SuspendReason::SecureDesktop,
                "input is going to a desktop this program is not allowed on, which is what a UAC prompt or the lock screen does"@,
            ),
        ),
        InputDesktop::Ours => match front {
            Some(front) => Some(
                (
                    SuspendReason::Elevated,
                    outranked_text(front.program@, front.theirs@, front.ours@),
                ),
            ),
            None => if can_inject {
                None
            } else {
                Some(
                    (
                        SuspendReason::Other,
                        "the system refuses injected input right now and does not say why"@,
                    ),
                )
            },
        },
    }
}

/// Why input injected here is not landing, if it is not.
///
/// The second part is for the log: what is in the way and what to do about it.
pub fn injection_blocked(desktop: &InputDesktop, front: &Option<Outranked>, can_inject: bool) -> (r:
    Option<(SuspendReason, String)>)
    ensures
        match r {
            Some(found) => in_the_way(*desktop, *front, can_inject) == Some((found.0, found.1@)),
            None => in_the_way(*desktop, *front, can_inject) is None,
        },
{
    match desktop {
        InputDesktop::Elsewhere(name) => {
            let mut r: Vec<char> = chars_of("input is going to the ");
            add_text(&mut r, name.as_str());
            add_text(
                &mut r,
                " desktop -- a UAC prompt, the lock screen or Ctrl+Alt+Del -- which a program in the user's session cannot reach",
            );
            return Some((SuspendReason::SecureDesktop, text_of(&r)));
        },
        InputDesktop::OutOfReach => {
            return Some(
                (
                    SuspendReason::SecureDesktop,
                    "input is going to a desktop this program is not allowed on, which is what a UAC prompt or the lock screen does".to_owned(),
                ),
            );
        },
        InputDesktop::Ours => {},
    }
    if let Some(front) = front {
        let mut r: Vec<char> = chars_of(front.program.as_str());
        add_text(&mut r, " is in front and runs at a ");
        add_text(&mut r, front.theirs.as_str());
        add_text(&mut r, " integrity level while smkvm runs at a ");
        add_text(&mut r, front.ours.as_str());
        add_text(
            &mut r,
            " one, so Windows refuses input from smkvm. Click a different window, or run smkvm as administrator (a scheduled task with 'run with highest privileges') so it outranks everything it has to type into",
        );
        return Some((SuspendReason::Elevated, text_of(&r)));
    }
    if !can_inject {
        return Some(
            (
                SuspendReason::Other,
                "the system refuses injected input right now and does not say why".to_owned(),
            ),
        );
    }
    None
}

/// Would injected input land now? The other half of [`injection_blocked`],
/// asked while suspended to know when to take the cursor again.
pub fn injection_possible(desktop: &InputDesktop, can_inject: bool) -> (r: bool)
    ensures
        r == (*desktop is Ours && can_inject),
{
    match desktop {
        InputDesktop::Ours => can_inject,
        _ => false,
    }
}

/// Whether a program at this level can type into every window.
pub fn reaches_every_window(level: u32) -> (r: bool)
    ensures
        r == (level >= HIGH_LEVEL),
{
    level >= HIGH_LEVEL
}

/// Where input can be put on the screen and nothing outranks this program,
/// nothing is in the way; where something is, input would not be tried.
pub proof fn blocked_and_possible_agree(
    desktop: InputDesktop,
    front: Option<Outranked>,
    can_inject: bool,
)
    ensures
        in_the_way(desktop, front, can_inject) is None ==> desktop is Ours && can_inject,
        desktop is Ours && can_inject && front is None ==> in_the_way(desktop, front, can_inject)
            is None,
{
}

} // verus!
