//! Keeping an X11 offer alive, from a thread of its own.
//!
//! An X11 owner has to keep answering for as long as its offer stands, and an
//! answer may mean fetching from another machine, which takes as long as it
//! takes. None of that belongs on the thread deciding where the cursor is, so
//! the owner lives on its own thread and is spoken to through a channel. This
//! decides what that thread does next: it is told what happened, and says what
//! to do about it.

use vstd::prelude::*;

use crate::selection::NONE;

verus! {

/// How long the thread waits for an instruction before looking after the
/// clipboard again, in milliseconds. Short, because a paste is somebody
/// waiting.
pub const OWNER_TICK: u64 = 5;

/// What happened on the thread.
#[derive(Clone, Copy, Debug, PartialEq, Eq, Structural)]
pub enum Happened {
    /// Something is to be offered; whether what is held still is.
    Offer { owns: bool },
    /// What is offered is to be given up.
    Release,
    /// No instruction came.
    Tick,
    /// None will come any more.
    Closed,
    /// The clipboard was let go of, and the connection is back -- or is not.
    LetGo { ok: bool },
    /// A new connection was made, or could not be.
    Connected { ok: bool },
    /// The clipboard was taken through this window, or could not be.
    Took { window: Option<u32> },
    /// Requests were answered; whether the clipboard is still ours.
    Served { owns: bool },
    /// Requests could not be answered.
    ServingFailed,
}

/// What to do next.
#[derive(Clone, Copy, Debug, PartialEq, Eq, Structural)]
pub enum Step {
    /// Wait for the next instruction.
    Rest,
    /// Offer the new thing through the selection already held.
    Reoffer,
    /// Let go of the clipboard, and get the connection back for next time.
    LetGo,
    /// Make a new connection.
    Connect,
    /// Take the clipboard through the connection there is.
    Take,
    /// Answer whatever has been asked.
    Serve,
    /// Say that the display cannot be reached, and wait for the next
    /// instruction.
    GiveUp,
    /// Nothing is left to do.
    Stop,
}

/// What follows once the connection is settled.
#[derive(Clone, Copy, Debug, PartialEq, Eq, Structural)]
pub enum Afterwards {
    Rest,
    Offer,
    Stop,
}

#[derive(Clone, Copy, Debug, PartialEq, Eq, Structural)]
pub enum Doing {
    Resting,
    LettingGo(Afterwards),
    /// Getting a connection for next time.
    Reconnecting(Afterwards),
    /// Getting a connection to make an offer through.
    Connecting,
    Taking,
    Serving,
    Stopped,
}

#[derive(Clone, Copy, Debug, PartialEq, Eq, Structural)]
pub struct Keeper {
    /// The window the clipboard is held through.
    held: Option<u32>,
    /// Whether there is a connection to make an offer through, between offers.
    ready: bool,
    doing: Doing,
}

pub struct KeeperView {
    pub held: Option<u32>,
    pub ready: bool,
    pub doing: Doing,
}

impl View for Keeper {
    type V = KeeperView;

    closed spec fn view(&self) -> KeeperView {
        KeeperView { held: self.held, ready: self.ready, doing: self.doing }
    }
}

/// Offer through the connection there is, or through a new one.
pub open spec fn offering(k: KeeperView) -> (KeeperView, Step) {
    if k.ready {
        (KeeperView { ready: false, doing: Doing::Taking, ..k }, Step::Take)
    } else {
        (KeeperView { doing: Doing::Connecting, ..k }, Step::Connect)
    }
}

pub open spec fn carried_on(k: KeeperView, afterwards: Afterwards) -> (KeeperView, Step) {
    match afterwards {
        Afterwards::Rest => (KeeperView { doing: Doing::Resting, ..k }, Step::Rest),
        Afterwards::Offer => offering(k),
        Afterwards::Stop => (KeeperView { doing: Doing::Stopped, ..k }, Step::Stop),
    }
}

/// Let go of whatever is held, and go on.
pub open spec fn letting_go(k: KeeperView, afterwards: Afterwards) -> (KeeperView, Step) {
    if k.held is Some {
        (KeeperView { held: None, doing: Doing::LettingGo(afterwards), ..k }, Step::LetGo)
    } else {
        carried_on(k, afterwards)
    }
}

/// What comes of something that happened. What does not belong to what is being
/// done changes nothing.
pub open spec fn kept(k: KeeperView, happened: Happened) -> (KeeperView, Step) {
    match (k.doing, happened) {
        (Doing::Resting, Happened::Offer { owns }) => if k.held is Some && owns {
            (k, Step::Reoffer)
        } else {
            letting_go(k, Afterwards::Offer)
        },
        (Doing::Resting, Happened::Release) => letting_go(k, Afterwards::Rest),
        (Doing::Resting, Happened::Tick) => if k.held is Some {
            (KeeperView { doing: Doing::Serving, ..k }, Step::Serve)
        } else {
            (k, Step::Rest)
        },
        (Doing::Resting, Happened::Closed) => letting_go(k, Afterwards::Stop),
        (Doing::LettingGo(afterwards), Happened::LetGo { ok }) => if ok {
            carried_on(KeeperView { ready: true, ..k }, afterwards)
        } else {
            (KeeperView { doing: Doing::Reconnecting(afterwards), ..k }, Step::Connect)
        },
        (Doing::Reconnecting(afterwards), Happened::Connected { ok }) => carried_on(
            KeeperView { ready: ok, ..k },
            afterwards,
        ),
        (Doing::Connecting, Happened::Connected { ok }) => if ok {
            (KeeperView { doing: Doing::Taking, ..k }, Step::Take)
        } else {
            (KeeperView { doing: Doing::Resting, ..k }, Step::GiveUp)
        },
        (Doing::Taking, Happened::Took { window }) => match window {
            Some(window) => (
                KeeperView { held: Some(window), doing: Doing::Serving, ..k },
                Step::Serve,
            ),
            None => (KeeperView { doing: Doing::Reconnecting(Afterwards::Rest), ..k }, Step::Connect),
        },
        (Doing::Serving, Happened::Served { owns }) => if owns {
            (KeeperView { doing: Doing::Resting, ..k }, Step::Rest)
        } else {
            letting_go(k, Afterwards::Rest)
        },
        (Doing::Serving, Happened::ServingFailed) => (
            KeeperView { held: None, doing: Doing::Reconnecting(Afterwards::Rest), ..k },
            Step::Connect,
        ),
        _ => (
            k,
            if k.doing is Stopped {
                Step::Stop
            } else {
                Step::Rest
            },
        ),
    }
}

impl Keeper {
    /// Nothing is held yet, and there is a connection to hold it through.
    pub fn new() -> (r: Keeper)
        ensures
            r@ == (KeeperView { held: None, ready: true, doing: Doing::Resting }),
    {
        Keeper { held: None, ready: true, doing: Doing::Resting }
    }

    /// The window this program holds the clipboard through, or zero when it
    /// holds nothing. For a watcher to look away from.
    pub fn owner_window(&self) -> (r: u32)
        ensures
            r == match self@.held {
                Some(window) => window,
                None => NONE,
            },
    {
        match self.held {
            Some(window) => window,
            None => NONE,
        }
    }

    fn offer(&mut self) -> (step: Step)
        ensures
            (final(self)@, step) == offering(old(self)@),
    {
        if self.ready {
            self.ready = false;
            self.doing = Doing::Taking;
            Step::Take
        } else {
            self.doing = Doing::Connecting;
            Step::Connect
        }
    }

    fn carry_on(&mut self, afterwards: Afterwards) -> (step: Step)
        ensures
            (final(self)@, step) == carried_on(old(self)@, afterwards),
    {
        match afterwards {
            Afterwards::Rest => {
                self.doing = Doing::Resting;
                Step::Rest
            },
            Afterwards::Offer => self.offer(),
            Afterwards::Stop => {
                self.doing = Doing::Stopped;
                Step::Stop
            },
        }
    }

    fn take_back(&mut self, afterwards: Afterwards) -> (step: Step)
        ensures
            (final(self)@, step) == letting_go(old(self)@, afterwards),
    {
        if self.held.is_some() {
            self.held = None;
            self.doing = Doing::LettingGo(afterwards);
            Step::LetGo
        } else {
            self.carry_on(afterwards)
        }
    }

    /// Something happened on the thread.
    pub fn happened(&mut self, happened: Happened) -> (step: Step)
        ensures
            (final(self)@, step) == kept(old(self)@, happened),
    {
        match (self.doing, happened) {
            (Doing::Resting, Happened::Offer { owns }) => {
                if self.held.is_some() && owns {
                    return Step::Reoffer;
                }
                self.take_back(Afterwards::Offer)
            },
            (Doing::Resting, Happened::Release) => self.take_back(Afterwards::Rest),
            (Doing::Resting, Happened::Tick) => {
                if self.held.is_some() {
                    self.doing = Doing::Serving;
                    return Step::Serve;
                }
                Step::Rest
            },
            (Doing::Resting, Happened::Closed) => self.take_back(Afterwards::Stop),
            (Doing::LettingGo(afterwards), Happened::LetGo { ok }) => {
                if ok {
                    self.ready = true;
                    return self.carry_on(afterwards);
                }
                self.doing = Doing::Reconnecting(afterwards);
                Step::Connect
            },
            (Doing::Reconnecting(afterwards), Happened::Connected { ok }) => {
                self.ready = ok;
                self.carry_on(afterwards)
            },
            (Doing::Connecting, Happened::Connected { ok }) => {
                if ok {
                    self.doing = Doing::Taking;
                    return Step::Take;
                }
                self.doing = Doing::Resting;
                Step::GiveUp
            },
            (Doing::Taking, Happened::Took { window }) => match window {
                Some(window) => {
                    self.held = Some(window);
                    self.doing = Doing::Serving;
                    Step::Serve
                },
                None => {
                    self.doing = Doing::Reconnecting(Afterwards::Rest);
                    Step::Connect
                },
            },
            (Doing::Serving, Happened::Served { owns }) => {
                if owns {
                    self.doing = Doing::Resting;
                    return Step::Rest;
                }
                self.take_back(Afterwards::Rest)
            },
            (Doing::Serving, Happened::ServingFailed) => {
                self.held = None;
                self.doing = Doing::Reconnecting(Afterwards::Rest);
                Step::Connect
            },
            (Doing::Stopped, _) => Step::Stop,
            _ => Step::Rest,
        }
    }
}

// --- what holds of the thread ------------------------------------------------------

/// The connection is either idle or in use, never both; and the clipboard is
/// held only while it is served or the thread rests.
pub open spec fn in_step(k: KeeperView) -> bool {
    &&& k.held is Some ==> !k.ready
    &&& k.doing is Serving ==> k.held is Some
    &&& k.held is Some ==> k.doing is Resting || k.doing is Serving
    &&& k.doing is Taking || k.doing is Connecting ==> !k.ready
}

/// A thread is in step when it starts, and stays so whatever happens.
pub proof fn the_thread_stays_in_step(k: KeeperView, happened: Happened)
    requires
        in_step(k),
    ensures
        in_step(KeeperView { held: None, ready: true, doing: Doing::Resting }),
        in_step(kept(k, happened).0),
{
}

/// The window that a watcher looks away from is given out when the clipboard
/// has been taken through it, and withdrawn before it is let go.
pub proof fn a_window_is_named_only_while_it_holds(k: KeeperView, happened: Happened)
    requires
        in_step(k),
    ensures
        kept(k, happened).1 == Step::LetGo ==> kept(k, happened).0.held is None,
        kept(k, happened).0.held is Some && k.held is None ==> happened == (Happened::Took {
            window: kept(k, happened).0.held,
        }),
        kept(k, happened).0.held is Some && k.held is Some ==> kept(k, happened).0.held == k.held,
{
}

/// Once no instruction can come, the thread lets go of what it holds and stops.
pub proof fn the_thread_lets_go_on_its_way_out(k: KeeperView, ok: bool, again: bool)
    requires
        in_step(k),
        k.doing is Resting,
    ensures
        ({
            let (first, step) = kept(k, Happened::Closed);
            if k.held is Some {
                let (second, then_step) = kept(first, Happened::LetGo { ok });
                &&& step == Step::LetGo
                &&& ok ==> second.doing is Stopped && then_step == Step::Stop
                &&& !ok ==> kept(second, Happened::Connected { ok: again }).1 == Step::Stop
            } else {
                step == Step::Stop
            }
        }),
{
}

/// While the clipboard is held and still ours, a new offer goes through the
/// same window: it is never let go of and taken again.
pub proof fn a_new_offer_keeps_the_clipboard(k: KeeperView)
    requires
        k.held is Some,
        k.doing is Resting,
    ensures
        kept(k, Happened::Offer { owns: true }) == (k, Step::Reoffer),
{
}

} // verus!
