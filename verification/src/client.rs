//! The client: a machine that receives the cursor rather than owning it.
//!
//! Its job is narrow. It puts input where it is told, reports its displays,
//! and -- the part that matters most -- lets go of everything the moment it
//! stops being in charge. A key still held on a machine the user has walked
//! away from is the failure this is built around.
//!
//! What is to be put on the screen comes out as work, to be done in order;
//! whether the platform refused a piece of it is told back through
//! [`Client::note`].

use vstd::prelude::*;

use crate::control::{
    ClientControl, ClientControlView, Key, MouseButton, Scroll, ServerControl, ServerControlView,
    SuspendReason,
};
use crate::layout::{Monitor, Point};

verus! {

/// What the client should send back.
#[derive(Debug, Clone, PartialEq)]
pub enum ClientAction {
    Send(ClientControl),
}

#[verifier::ext_equal]
pub enum ClientActionView {
    Send(ClientControlView),
}

impl DeepView for ClientAction {
    type V = ClientActionView;

    open spec fn deep_view(&self) -> ClientActionView {
        match self {
            ClientAction::Send(msg) => ClientActionView::Send(msg.deep_view()),
        }
    }
}

/// Something to be done with this machine's pointer and keyboard.
#[allow(inconsistent_fields)]
#[derive(Debug, PartialEq)]
pub enum Work {
    MoveTo { x: i32, y: i32 },
    ShowCursor,
    HideCursor,
    Button { button: MouseButton, down: bool },
    Wheel(Scroll),
    Key { key: Key, down: bool },
    /// The same physical key going down again; what is held does not change.
    Repeat { key: Key },
    /// Hold exactly these.
    Sync { pressed: Vec<Key>, buttons: Vec<MouseButton> },
    ReleaseAll,
    Flush,
}

#[allow(inconsistent_fields)]
#[verifier::ext_equal]
pub enum WorkView {
    MoveTo { x: i32, y: i32 },
    ShowCursor,
    HideCursor,
    Button { button: MouseButton, down: bool },
    Wheel(Scroll),
    Key { key: Key, down: bool },
    Repeat { key: Key },
    Sync { pressed: Seq<Key>, buttons: Seq<MouseButton> },
    ReleaseAll,
    Flush,
}

impl DeepView for Work {
    type V = WorkView;

    open spec fn deep_view(&self) -> WorkView {
        match self {
            Work::MoveTo { x, y } => WorkView::MoveTo { x: *x, y: *y },
            Work::ShowCursor => WorkView::ShowCursor,
            Work::HideCursor => WorkView::HideCursor,
            Work::Button { button, down } => WorkView::Button { button: *button, down: *down },
            Work::Wheel(scroll) => WorkView::Wheel(*scroll),
            Work::Key { key, down } => WorkView::Key { key: *key, down: *down },
            Work::Repeat { key } => WorkView::Repeat { key: *key },
            Work::Sync { pressed, buttons } => WorkView::Sync {
                pressed: pressed@,
                buttons: buttons@,
            },
            Work::ReleaseAll => WorkView::ReleaseAll,
            Work::Flush => WorkView::Flush,
        }
    }
}

/// How the platform took a piece of work.
#[derive(Debug, PartialEq)]
pub enum Outcome {
    Done,
    /// The platform has no way to send this key.
    Unmapped(String),
    Refused(String),
}

pub enum OutcomeView {
    Done,
    Unmapped(Seq<char>),
    Refused(Seq<char>),
}

impl DeepView for Outcome {
    type V = OutcomeView;

    open spec fn deep_view(&self) -> OutcomeView {
        match self {
            Outcome::Done => OutcomeView::Done,
            Outcome::Unmapped(why) => OutcomeView::Unmapped(why@),
            Outcome::Refused(why) => OutcomeView::Refused(why@),
        }
    }
}

/// Everything the client keeps track of.
#[verifier::ext_equal]
pub struct ClientView {
    /// Whether this machine currently has the cursor.
    pub active: bool,
    pub suspended: Option<SuspendReason>,
    /// The last injection that the platform refused while the cursor was here,
    /// kept until somebody asks.
    pub refused: Option<Seq<char>>,
}

/// The state that follows, what is to be done here, and what is sent back.
pub struct Reaction {
    pub after: ClientView,
    pub work: Seq<WorkView>,
    pub out: Seq<ClientActionView>,
}

impl ClientView {
    /// Should input actually be put on this screen right now?
    pub open spec fn deliverable(self) -> bool {
        self.active && self.suspended is None
    }

    pub open spec fn still(self) -> Reaction {
        Reaction { after: self, work: seq![], out: seq![] }
    }

    pub open spec fn doing(self, work: Seq<WorkView>) -> Reaction {
        Reaction { after: self, work, out: seq![] }
    }

    /// Put on the screen, if anything is to be put there.
    pub open spec fn inject(self, work: WorkView) -> Reaction {
        if self.deliverable() {
            self.doing(seq![work, WorkView::Flush])
        } else {
            self.still()
        }
    }

    /// The link went away: nothing can arrive to release what is held, so it
    /// is released now, and this machine's own pointer is its own again.
    pub open spec fn disconnected(self) -> Reaction {
        ClientView { active: false, ..self }.doing(
            seq![WorkView::ReleaseAll, WorkView::ShowCursor],
        )
    }

    pub open spec fn suspend(self, reason: SuspendReason) -> Reaction {
        if self.suspended == Some(reason) {
            self.still()
        } else {
            Reaction {
                after: ClientView { active: false, suspended: Some(reason), ..self },
                work: seq![WorkView::ReleaseAll],
                out: seq![ClientActionView::Send(ClientControlView::Suspended { reason })],
            }
        }
    }

    pub open spec fn resume(self) -> Reaction {
        if self.suspended is None {
            self.still()
        } else {
            Reaction {
                after: ClientView { suspended: None, ..self },
                work: seq![],
                out: seq![ClientActionView::Send(ClientControlView::Resumed)],
            }
        }
    }

    /// What a message leads to.
    pub open spec fn react(self, msg: ServerControlView) -> Reaction {
        match msg {
            // Position first, then state: a press that lands before the
            // pointer has arrived goes to whatever was under it.
            ServerControlView::Enter { at, pressed, buttons } => ClientView {
                active: true,
                ..self
            }.doing(
                seq![
                    WorkView::MoveTo { x: at.x, y: at.y },
                    WorkView::ShowCursor,
                    WorkView::Sync { pressed, buttons },
                ],
            ),
            ServerControlView::Leave => ClientView { active: false, ..self }.doing(
                seq![WorkView::ReleaseAll, WorkView::HideCursor],
            ),
            ServerControlView::MoveTo { x, y } => self.inject(WorkView::MoveTo { x, y }),
            ServerControlView::Button { button, down } => self.inject(
                WorkView::Button { button, down },
            ),
            ServerControlView::Wheel(scroll) => self.inject(WorkView::Wheel(scroll)),
            ServerControlView::KeyEvent { key, down, repeat } => self.inject(
                if repeat && down {
                    WorkView::Repeat { key }
                } else {
                    WorkView::Key { key, down }
                },
            ),
            ServerControlView::SyncKeys { pressed, buttons } => self.doing(
                seq![WorkView::Sync { pressed, buttons }],
            ),
            // Always obeyed, active or not, suspended or not: being told to
            // let go is never something to second-guess.
            ServerControlView::ReleaseAll => self.doing(seq![WorkView::ReleaseAll]),
            ServerControlView::Ping { id } => Reaction {
                after: self,
                work: seq![],
                out: seq![ClientActionView::Send(ClientControlView::Pong { id })],
            },
            ServerControlView::Goodbye => self.disconnected(),
            // Handshake messages and the clipboard are dealt with before
            // anything reaches here.
            _ => self.still(),
        }
    }

    /// A refusal means nothing sent is landing; it is remembered. A key this
    /// platform has no way to send is not a refusal, and what only tidies up
    /// may fail quietly.
    pub open spec fn note(self, work: WorkView, outcome: OutcomeView) -> ClientView {
        let why = match outcome {
            OutcomeView::Done => None,
            OutcomeView::Unmapped(why) => if work is Key || work is Repeat {
                None
            } else {
                Some(why)
            },
            OutcomeView::Refused(why) => Some(why),
        };
        let counts = work is MoveTo || work is Button || work is Wheel || work is Key || work
            is Repeat;
        if counts && why is Some {
            ClientView { refused: why, ..self }
        } else {
            self
        }
    }
}

// --- carrying it out ------------------------------------------------------

/// What is to be done here, and what is sent back.
#[derive(Debug)]
pub struct Response {
    pub work: Vec<Work>,
    pub replies: Vec<ClientAction>,
}

fn quiet() -> (r: Response)
    ensures
        r.work.deep_view() == Seq::<WorkView>::empty(),
        r.replies.deep_view() == Seq::<ClientActionView>::empty(),
{
    let r: Response = Response { work: Vec::new(), replies: Vec::new() };
    assert(r.work.deep_view() =~= Seq::<WorkView>::empty());
    assert(r.replies.deep_view() =~= Seq::<ClientActionView>::empty());
    r
}

fn will_do(r: &mut Response, work: Work)
    ensures
        final(r).work.deep_view() == old(r).work.deep_view().push(work.deep_view()),
        final(r).replies.deep_view() == old(r).replies.deep_view(),
{
    let ghost before = r.work.deep_view();
    let ghost added = work.deep_view();
    r.work.push(work);
    assert(r.work.deep_view() =~= before.push(added));
}

fn will_say(r: &mut Response, msg: ClientControl)
    ensures
        final(r).replies.deep_view() == old(r).replies.deep_view().push(
            ClientActionView::Send(msg.deep_view()),
        ),
        final(r).work.deep_view() == old(r).work.deep_view(),
{
    let ghost before = r.replies.deep_view();
    let ghost added = ClientActionView::Send(msg.deep_view());
    r.replies.push(ClientAction::Send(msg));
    assert(r.replies.deep_view() =~= before.push(added));
}

#[derive(Debug)]
pub struct Client {
    active: bool,
    suspended: Option<SuspendReason>,
    refused: Option<String>,
}

impl View for Client {
    type V = ClientView;

    closed spec fn view(&self) -> ClientView {
        ClientView {
            active: self.active,
            suspended: self.suspended,
            refused: self.refused.deep_view(),
        }
    }
}

impl Client {
    pub fn new() -> (r: Client)
        ensures
            r@ == (ClientView { active: false, suspended: None, refused: None }),
    {
        Client { active: false, suspended: None, refused: None }
    }

    /// The most recent injection the platform refused, if any since the last
    /// time this was asked. The caller decides what that means here.
    pub fn take_refusal(&mut self) -> (r: Option<String>)
        ensures
            r.deep_view() == old(self)@.refused,
            final(self)@ == (ClientView { refused: None, ..old(self)@ }),
    {
        self.refused.take()
    }

    /// How a piece of work went.
    pub fn note(&mut self, work: &Work, outcome: Outcome)
        ensures
            final(self)@ == old(self)@.note(work.deep_view(), outcome.deep_view()),
    {
        let (counts, typed): (bool, bool) = match work {
            Work::MoveTo { x, y } => (true, false),
            Work::Button { button, down } => (true, false),
            Work::Wheel(scroll) => (true, false),
            Work::Key { key, down } => (true, true),
            Work::Repeat { key } => (true, true),
            _ => (false, false),
        };
        if !counts {
            return ;
        }
        match outcome {
            Outcome::Done => {},
            Outcome::Unmapped(why) => {
                if !typed {
                    self.refused = Some(why);
                }
            },
            Outcome::Refused(why) => {
                self.refused = Some(why);
            },
        }
    }

    pub fn is_active(&self) -> (r: bool)
        ensures
            r == self@.active,
    {
        self.active
    }

    pub fn is_suspended(&self) -> (r: bool)
        ensures
            r == (self@.suspended is Some),
    {
        self.suspended.is_some()
    }

    /// Tell the server what displays this machine has.
    pub fn report_monitors(&self, monitors: Vec<Monitor>) -> (r: ClientAction)
        ensures
            r.deep_view() == ClientActionView::Send(
                ClientControlView::Monitors { monitors: monitors.deep_view() },
            ),
    {
        ClientAction::Send(ClientControl::Monitors { monitors })
    }

    /// Injection has stopped reaching the screen.
    ///
    /// On Windows this is a UAC prompt or the lock screen taking over: the
    /// session is fine, but nothing sent will land. Saying so lets the server
    /// keep the cursor rather than the pointer fighting an invisible wall.
    pub fn suspend(&mut self, reason: SuspendReason) -> (r: Response)
        ensures
            final(self)@ == old(self)@.suspend(reason).after,
            r.work.deep_view() == old(self)@.suspend(reason).work,
            r.replies.deep_view() == old(self)@.suspend(reason).out,
    {
        let mut r: Response = quiet();
        let already: bool = match self.suspended {
            Some(now) => now == reason,
            None => false,
        };
        if already {
            return r;
        }
        self.suspended = Some(reason);
        self.active = false;
        // Anything held would otherwise stay held for as long as the prompt is
        // up, and possibly past it.
        will_do(&mut r, Work::ReleaseAll);
        will_say(&mut r, ClientControl::Suspended { reason });
        r
    }

    pub fn resume(&mut self) -> (r: Response)
        ensures
            final(self)@ == old(self)@.resume().after,
            r.work.deep_view() == old(self)@.resume().work,
            r.replies.deep_view() == old(self)@.resume().out,
    {
        let mut r: Response = quiet();
        if self.suspended.is_some() {
            self.suspended = None;
            will_say(&mut r, ClientControl::Resumed);
        }
        r
    }

    /// The link went away.
    ///
    /// Nothing can arrive to release what is held, so it is released here. A
    /// dropped connection in the middle of a chord is the commonest way a key
    /// gets stranded.
    pub fn disconnected(&mut self) -> (r: Response)
        ensures
            final(self)@ == old(self)@.disconnected().after,
            r.work.deep_view() == old(self)@.disconnected().work,
            r.replies.deep_view() == old(self)@.disconnected().out,
    {
        let mut r: Response = quiet();
        self.active = false;
        will_do(&mut r, Work::ReleaseAll);
        will_do(&mut r, Work::ShowCursor);
        r
    }

    /// Should input actually be put on this screen right now?
    fn deliverable(&self) -> (r: bool)
        ensures
            r == self@.deliverable(),
    {
        self.active && self.suspended.is_none()
    }

    fn inject(&self, work: Work, r: &mut Response)
        requires
            old(r).work.deep_view() == Seq::<WorkView>::empty(),
        ensures
            final(r).work.deep_view() == self@.inject(work.deep_view()).work,
            final(r).replies.deep_view() == old(r).replies.deep_view(),
    {
        let ghost w = work.deep_view();
        if self.deliverable() {
            will_do(r, work);
            will_do(r, Work::Flush);
        }
        assert(r.work.deep_view() =~= self@.inject(w).work);
    }

    /// Deal with a message from the server.
    pub fn handle(&mut self, msg: ServerControl) -> (r: Response)
        ensures
            final(self)@ == old(self)@.react(msg.deep_view()).after,
            r.work.deep_view() == old(self)@.react(msg.deep_view()).work,
            r.replies.deep_view() == old(self)@.react(msg.deep_view()).out,
    {
        let mut r: Response = quiet();
        match msg {
            ServerControl::Enter { at, pressed, buttons } => {
                self.active = true;
                will_do(&mut r, Work::MoveTo { x: at.x, y: at.y });
                will_do(&mut r, Work::ShowCursor);
                will_do(&mut r, Work::Sync { pressed, buttons });
            },
            ServerControl::Leave => {
                self.active = false;
                will_do(&mut r, Work::ReleaseAll);
                will_do(&mut r, Work::HideCursor);
            },
            ServerControl::MoveTo { x, y } => self.inject(Work::MoveTo { x, y }, &mut r),
            ServerControl::Button { button, down } => self.inject(
                Work::Button { button, down },
                &mut r,
            ),
            ServerControl::Wheel(scroll) => self.inject(Work::Wheel(scroll), &mut r),
            ServerControl::KeyEvent { key, down, repeat } => {
                if repeat && down {
                    self.inject(Work::Repeat { key }, &mut r);
                } else {
                    self.inject(Work::Key { key, down }, &mut r);
                }
            },
            ServerControl::SyncKeys { pressed, buttons } => {
                will_do(&mut r, Work::Sync { pressed, buttons });
            },
            ServerControl::ReleaseAll => {
                will_do(&mut r, Work::ReleaseAll);
            },
            ServerControl::Ping { id } => {
                will_say(&mut r, ClientControl::Pong { id });
            },
            ServerControl::Goodbye => {
                return self.disconnected();
            },
            ServerControl::Pong { id } => {},
            ServerControl::Hello(hello) => {},
            ServerControl::Rejected { reason } => {},
            ServerControl::Bulk(bulk) => {},
        }
        r
    }
}

// --- what always holds ------------------------------------------------------

/// The moment this machine stops being in charge -- the cursor leaves, the
/// server says goodbye, the link drops or nothing will land any more -- it lets
/// go of everything.
pub proof fn it_lets_go_when_it_stops_being_in_charge(
    s: ClientView,
    msg: ServerControlView,
    reason: SuspendReason,
)
    requires
        s.active,
    ensures
        !s.react(msg).after.active ==> s.react(msg).work.contains(WorkView::ReleaseAll),
        !s.disconnected().after.active && s.disconnected().work.contains(WorkView::ReleaseAll),
        s.suspended is None ==> !s.suspend(reason).after.active && s.suspend(
            reason,
        ).work.contains(WorkView::ReleaseAll),
        !s.react(ServerControlView::Leave).after.active,
        !s.react(ServerControlView::Goodbye).after.active,
{
    if s.react(msg).work.len() > 0 {
        assert(s.react(msg).work.contains(s.react(msg).work[0]));
    }
    assert(s.disconnected().work.contains(s.disconnected().work[0]));
    if s.suspended is None {
        assert(s.suspend(reason).work.contains(s.suspend(reason).work[0]));
    }
}

/// While this machine does not have the cursor, or cannot act, nothing the
/// server sends moves, presses or types anything here.
pub proof fn nothing_is_injected_unless_in_charge(s: ClientView, msg: ServerControlView)
    requires
        !s.deliverable(),
        msg is MoveTo || msg is Button || msg is Wheel || msg is KeyEvent,
    ensures
        s.react(msg) == s.still(),
{
}

/// Being told to let go is always obeyed.
pub proof fn letting_go_is_always_obeyed(s: ClientView)
    ensures
        s.react(ServerControlView::ReleaseAll).work.contains(WorkView::ReleaseAll),
        s.react(ServerControlView::ReleaseAll).after == s,
{
    assert(s.react(ServerControlView::ReleaseAll).work[0] == WorkView::ReleaseAll);
}

/// An arrival places the pointer before it presses anything, and then holds
/// exactly what the server says is held.
pub proof fn an_arrival_places_before_it_presses(
    s: ClientView,
    at: Point,
    pressed: Seq<Key>,
    buttons: Seq<MouseButton>,
)
    ensures
        ({
            let r = s.react(ServerControlView::Enter { at, pressed, buttons });
            &&& r.after.active
            &&& r.work.first() == WorkView::MoveTo { x: at.x, y: at.y }
            &&& r.work.last() == WorkView::Sync { pressed, buttons }
        }),
{
}

} // verus!
