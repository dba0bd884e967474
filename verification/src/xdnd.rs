//! Picking up what is being dragged as the cursor leaves an X11 machine.
//!
//! The protocol for dragging tells only the window under the pointer what a
//! drag carries, so a small window is kept out of sight, and when asked is
//! stood under the pointer for a moment. The dragging application notices it on
//! the next pointer movement and says it has entered; the drag is then
//! accepted, the button released on the application's behalf so it drops there,
//! the file list read out of the drag's selection, and the application told the
//! drop is finished -- with nothing moved or copied on this machine, since a
//! copy is what was declared.

use vstd::prelude::*;

use crate::files::{local_paths, paths_named, utf8_text};
use crate::selection::NONE;
use crate::table::listed;
use crate::text::lines;

verus! {

/// The version of the protocol this speaks.
pub const XDND_VERSION: u32 = 5;

/// How long the dragging application gets to notice the window, in
/// milliseconds.
pub const ENTER_PATIENCE: u64 = 250;

/// How long the drop gets to arrive once the button has been released, and the
/// file list once the drop has, in milliseconds.
pub const DROP_PATIENCE: u64 = 500;

/// Half the side of the catching window. Big enough that a pointer nudged by
/// one pixel is still inside it.
pub const REACH: i32 = 32;

/// What is done with the pointer of this machine.
#[derive(Clone, Copy, Debug, PartialEq, Eq, Structural)]
pub enum Drive {
    MoveTo(i32, i32),
    ReleaseLeft,
}

/// The atoms the protocol is spoken in.
#[derive(Clone, Copy, Debug, PartialEq, Eq, Structural)]
pub struct DndAtoms {
    pub aware: u32,
    pub enter: u32,
    pub position: u32,
    pub status: u32,
    pub drop: u32,
    pub finished: u32,
    pub selection: u32,
    pub type_list: u32,
    pub action_copy: u32,
    pub uri_list: u32,
    /// Where the file list is asked to be written on our window.
    pub transfer: u32,
}

/// The five numbers that a message carries.
#[derive(Clone, Copy, Debug, PartialEq, Eq, Structural)]
pub struct Words {
    pub l0: u32,
    pub l1: u32,
    pub l2: u32,
    pub l3: u32,
    pub l4: u32,
}

/// What has happened while catching a drag.
#[derive(Debug, PartialEq, Eq)]
pub enum Happened {
    /// A message came to this window.
    Message { window: u32, kind: u32, data: Words },
    /// The drag's selection was answered for this window; a property of
    /// [`NONE`] where it was declined.
    Answered { requestor: u32, property: u32 },
    /// The types on the dragging window were read; none where they could not
    /// be.
    Types(Vec<u32>),
    /// The application was told something, or could not be.
    Told { ok: bool },
    /// The file list was read: how wide its items are, and what it holds.
    List { width: u8, value: Vec<u8> },
    /// What was waited for did not come, or could not be asked for.
    Missed,
}

#[verifier::ext_equal]
pub enum HappenedView {
    Message { window: u32, kind: u32, data: Words },
    Answered { requestor: u32, property: u32 },
    Types(Seq<u32>),
    Told { ok: bool },
    List { width: u8, value: Seq<u8> },
    Missed,
}

impl DeepView for Happened {
    type V = HappenedView;

    open spec fn deep_view(&self) -> HappenedView {
        match self {
            Happened::Message { window, kind, data } => HappenedView::Message {
                window: *window,
                kind: *kind,
                data: *data,
            },
            Happened::Answered { requestor, property } => HappenedView::Answered {
                requestor: *requestor,
                property: *property,
            },
            Happened::Types(types) => HappenedView::Types(types@),
            Happened::Told { ok } => HappenedView::Told { ok: *ok },
            Happened::List { width, value } => HappenedView::List { width: *width, value: value@ },
            Happened::Missed => HappenedView::Missed,
        }
    }
}

/// What to do about it.
#[derive(Clone, Copy, Debug, PartialEq, Eq, Structural)]
pub enum Act {
    /// Stand the window with its corner here, above all others.
    Stand { x: i32, y: i32 },
    Drive(Drive),
    /// Read the list of types on the dragging window.
    ReadTypes { source: u32 },
    /// Tell the dragging application something.
    Tell { to: u32, kind: u32, data: Words },
    /// Ask for the drag's file list, as of this time.
    AskForList { time: u32 },
    /// Read the list out of the property it was asked to be written to, and
    /// delete that.
    ReadList,
    /// Take the window out of sight.
    Withdraw,
}

#[derive(Clone, Copy, Debug, PartialEq, Eq, Structural)]
pub enum Stage {
    /// Waiting for the application to notice the window.
    Entering,
    /// Waiting for the list of types.
    Typing { source: u32 },
    /// Waiting to hear where the pointer is.
    Positioning { source: u32 },
    /// The application is being told that the drag is welcome.
    Accepting { source: u32 },
    /// Waiting for the drop; whether the application asked again meanwhile.
    Dropping { source: u32, asked: bool },
    /// Waiting for the answer to the request for the file list.
    Asking { source: u32 },
    /// Waiting for the file list itself.
    Listing { source: u32 },
    Over,
}

pub struct DndCatcher {
    window: u32,
    atoms: DndAtoms,
    stage: Stage,
    paths: Option<Vec<String>>,
}

#[verifier::ext_equal]
pub struct CatcherView {
    pub window: u32,
    pub atoms: DndAtoms,
    pub stage: Stage,
    /// The files of the drag, once it has been caught.
    pub paths: Option<Seq<Seq<char>>>,
}

impl View for DndCatcher {
    type V = CatcherView;

    closed spec fn view(&self) -> CatcherView {
        CatcherView {
            window: self.window,
            atoms: self.atoms,
            stage: self.stage,
            paths: self.paths.deep_view(),
        }
    }
}

/// A message that accepts the drag, whatever the application asked about.
pub open spec fn acceptance(c: CatcherView, source: u32) -> Act {
    Act::Tell {
        to: source,
        kind: c.atoms.status,
        data: Words { l0: c.window, l1: 1, l2: 0, l3: 0, l4: c.atoms.action_copy },
    }
}

pub open spec fn completion(c: CatcherView, source: u32) -> Act {
    Act::Tell {
        to: source,
        kind: c.atoms.finished,
        data: Words { l0: c.window, l1: 1, l2: c.atoms.action_copy, l3: 0, l4: 0 },
    }
}

/// The types in a message that has room for all of them.
pub open spec fn types_in(data: Words) -> Seq<u32> {
    seq![data.l2, data.l3, data.l4].filter(|t: u32| t != 0)
}

pub open spec fn given_up(c: CatcherView) -> (CatcherView, Seq<Act>) {
    (CatcherView { stage: Stage::Over, ..c }, seq![Act::Withdraw])
}

/// Whether the drag carries files, now that its types are known.
pub open spec fn weighed(c: CatcherView, source: u32, types: Seq<u32>) -> (CatcherView, Seq<Act>) {
    if types.contains(c.atoms.uri_list) {
        (CatcherView { stage: Stage::Positioning { source }, ..c }, seq![])
    } else {
        given_up(c)
    }
}

/// The files a list names, if it names any.
pub open spec fn files_in(list: Option<Seq<u8>>) -> Option<Seq<Seq<char>>> {
    match list {
        Some(value) => {
            let paths = paths_named(lines(utf8_text(value)), false);
            if paths.len() == 0 {
                None
            } else {
                Some(paths)
            }
        },
        None => None,
    }
}

/// The drop is finished, and nothing was taken: the files are still where they
/// were, whatever the application thought it was doing.
pub open spec fn ended(c: CatcherView, source: u32, list: Option<Seq<u8>>) -> (
    CatcherView,
    Seq<Act>,
) {
    (
        CatcherView { stage: Stage::Over, paths: files_in(list), ..c },
        seq![completion(c, source), Act::Withdraw],
    )
}

/// Answer the application again where it asked while the drop was awaited.
pub open spec fn again(c: CatcherView, source: u32, asked: bool) -> Seq<Act> {
    if asked {
        seq![acceptance(c, source)]
    } else {
        seq![]
    }
}

/// Whether this is a message of a kind, to this window.
pub open spec fn is_message(c: CatcherView, happened: HappenedView, kind: u32) -> bool {
    happened matches HappenedView::Message { window, kind: k, .. } && window == c.window && k == kind
}

/// What comes of what has happened.
pub open spec fn caught(c: CatcherView, happened: HappenedView) -> (CatcherView, Seq<Act>) {
    match c.stage {
        Stage::Entering => if is_message(c, happened, c.atoms.enter) {
            let data = happened->Message_data;
            let source = data.l0;
            if data.l1 % 2 == 0 {
                weighed(c, source, types_in(data))
            } else {
                (
                    CatcherView { stage: Stage::Typing { source }, ..c },
                    seq![Act::ReadTypes { source }],
                )
            }
        } else if happened is Missed {
            given_up(c)
        } else {
            (c, seq![])
        },
        Stage::Typing { source } => match happened {
            HappenedView::Types(types) => weighed(c, source, types),
            _ => (c, seq![]),
        },
        Stage::Positioning { source } => if is_message(c, happened, c.atoms.position)
            || happened is Missed {
            (
                CatcherView { stage: Stage::Accepting { source }, ..c },
                seq![acceptance(c, source)],
            )
        } else {
            (c, seq![])
        },
        Stage::Accepting { source } => match happened {
            HappenedView::Told { ok } => if ok {
                (
                    CatcherView { stage: Stage::Dropping { source, asked: false }, ..c },
                    seq![Act::Drive(Drive::ReleaseLeft)],
                )
            } else {
                given_up(c)
            },
            _ => (c, seq![]),
        },
        Stage::Dropping { source, asked } => if is_message(c, happened, c.atoms.drop) {
            let time = happened->Message_data.l2;
            (
                CatcherView { stage: Stage::Asking { source }, ..c },
                again(c, source, asked) + seq![Act::AskForList { time }],
            )
        } else if is_message(c, happened, c.atoms.position) {
            (CatcherView { stage: Stage::Dropping { source, asked: true }, ..c }, seq![])
        } else if happened is Missed {
            (
                CatcherView { stage: Stage::Over, ..c },
                again(c, source, asked) + seq![Act::Withdraw],
            )
        } else {
            (c, seq![])
        },
        Stage::Asking { source } => match happened {
            HappenedView::Answered { requestor, property } => if requestor != c.window {
                (c, seq![])
            } else if property == NONE {
                ended(c, source, None)
            } else {
                (CatcherView { stage: Stage::Listing { source }, ..c }, seq![Act::ReadList])
            },
            HappenedView::Missed => ended(c, source, None),
            _ => (c, seq![]),
        },
        Stage::Listing { source } => match happened {
            HappenedView::List { width, value } => ended(
                c,
                source,
                if width == 8 && value.len() > 0 {
                    Some(value)
                } else {
                    None
                },
            ),
            HappenedView::Missed => ended(c, source, None),
            _ => (c, seq![]),
        },
        Stage::Over => (c, seq![]),
    }
}

/// Put one thing to do on the end.
fn do_one(acts: &mut Vec<Act>, act: Act)
    ensures
        final(acts)@ == old(acts)@ + seq![act],
{
    acts.push(act);
    assert(acts@ =~= old(acts)@ + seq![act]);
}

fn types_of(data: &Words) -> (r: Vec<u32>)
    ensures
        r@ == types_in(*data),
{
    let mut r: Vec<u32> = Vec::new();
    let ghost all = seq![data.l2, data.l3, data.l4];
    if data.l2 != 0 {
        r.push(data.l2);
    }
    if data.l3 != 0 {
        r.push(data.l3);
    }
    if data.l4 != 0 {
        r.push(data.l4);
    }
    proof {
        let set = |t: u32| t != 0;
        reveal(Seq::filter);
        assert(all.drop_last() =~= seq![data.l2, data.l3]);
        assert(all.drop_last().drop_last() =~= seq![data.l2]);
        assert(all.drop_last().drop_last().drop_last() =~= seq![]);
        reveal_with_fuel(Seq::filter, 4);
        assert(r@ =~= all.filter(set));
    }
    r
}

impl DndCatcher {
    /// Stand the window under the pointer, and nudge that.
    ///
    /// The application looks at what is under the pointer when the pointer
    /// moves. Once away and back leaves it exactly where it was.
    pub fn begin(window: u32, atoms: DndAtoms, x: i16, y: i16) -> (r: (DndCatcher, Vec<Act>))
        ensures
            r.0@ == (CatcherView { window, atoms, stage: Stage::Entering, paths: None }),
            r.1@ == seq![
                Act::Stand { x: (x - REACH) as i32, y: (y - REACH) as i32 },
                Act::Drive(Drive::MoveTo((x + 1) as i32, y as i32)),
                Act::Drive(Drive::MoveTo(x as i32, y as i32)),
            ],
    {
        let (x, y): (i32, i32) = (x as i32, y as i32);
        let mut acts: Vec<Act> = Vec::new();
        acts.push(Act::Stand { x: x - REACH, y: y - REACH });
        acts.push(Act::Drive(Drive::MoveTo(x + 1, y)));
        acts.push(Act::Drive(Drive::MoveTo(x, y)));
        (DndCatcher { window, atoms, stage: Stage::Entering, paths: None }, acts)
    }

    /// How long to wait for something to happen, in milliseconds, where waiting
    /// is what there is to do.
    pub fn patience(&self) -> (r: Option<u64>)
        ensures
            r == match self@.stage {
                Stage::Entering => Some(ENTER_PATIENCE),
                Stage::Positioning { .. } => Some(ENTER_PATIENCE),
                Stage::Dropping { .. } => Some(DROP_PATIENCE),
                Stage::Asking { .. } => Some(DROP_PATIENCE),
                _ => None,
            },
    {
        match self.stage {
            Stage::Entering | Stage::Positioning { .. } => Some(ENTER_PATIENCE),
            Stage::Dropping { .. } | Stage::Asking { .. } => Some(DROP_PATIENCE),
            _ => None,
        }
    }

    /// What is being waited for.
    pub fn stage(&self) -> (r: Stage)
        ensures
            r == self@.stage,
    {
        self.stage
    }

    pub fn is_over(&self) -> (r: bool)
        ensures
            r == self@.stage is Over,
    {
        match self.stage {
            Stage::Over => true,
            _ => false,
        }
    }

    /// The files that were dragged, if any were.
    pub fn finish(self) -> (r: Option<Vec<String>>)
        ensures
            r.deep_view() == self@.paths,
    {
        self.paths
    }

    fn accept(&self, source: u32) -> (r: Act)
        ensures
            r == acceptance(self@, source),
    {
        Act::Tell {
            to: source,
            kind: self.atoms.status,
            data: Words { l0: self.window, l1: 1, l2: 0, l3: 0, l4: self.atoms.action_copy },
        }
    }

    fn give_up(&mut self) -> (acts: Vec<Act>)
        ensures
            (final(self)@, acts@) == given_up(old(self)@),
    {
        self.stage = Stage::Over;
        let mut acts: Vec<Act> = Vec::new();
        acts.push(Act::Withdraw);
        assert(acts@ =~= seq![Act::Withdraw]);
        acts
    }

    fn weigh(&mut self, source: u32, types: &Vec<u32>) -> (acts: Vec<Act>)
        ensures
            (final(self)@, acts@) == weighed(old(self)@, source, types@),
    {
        assert(types.deep_view() =~= types@);
        if listed(types, &self.atoms.uri_list) {
            self.stage = Stage::Positioning { source };
            let acts: Vec<Act> = Vec::new();
            assert(acts@ =~= seq![]);
            return acts;
        }
        self.give_up()
    }

    fn end(&mut self, source: u32, list: Option<Vec<u8>>) -> (acts: Vec<Act>)
        requires
            old(self)@.paths is None,
        ensures
            (final(self)@, acts@) == ended(
                old(self)@,
                source,
                match list {
                    Some(value) => Some(value@),
                    None => None,
                },
            ),
    {
        let mut acts: Vec<Act> = Vec::new();
        acts.push(
            Act::Tell {
                to: source,
                kind: self.atoms.finished,
                data: Words {
                    l0: self.window,
                    l1: 1,
                    l2: self.atoms.action_copy,
                    l3: 0,
                    l4: 0,
                },
            },
        );
        acts.push(Act::Withdraw);
        assert(acts@ =~= seq![completion(self@, source), Act::Withdraw]);
        self.stage = Stage::Over;
        if let Some(value) = list {
            let paths: Vec<String> = local_paths(value.as_slice(), false);
            if paths.len() > 0 {
                self.paths = Some(paths);
            }
        }
        acts
    }

    /// Something has happened.
    pub fn happened(&mut self, happened: Happened) -> (acts: Vec<Act>)
        requires
            old(self)@.stage is Over || old(self)@.paths is None,
        ensures
            final(self)@.stage is Over || final(self)@.paths is None,
            (final(self)@, acts@) == caught(old(self)@, happened.deep_view()),
    {
        let ghost c = self@;
        let mut acts: Vec<Act> = Vec::new();
        assert(acts@ =~= seq![]);
        let (window, atoms): (u32, DndAtoms) = (self.window, self.atoms);
        match (self.stage, happened) {
            (Stage::Entering, Happened::Message { window: to, kind, data }) => {
                if to == window && kind == atoms.enter {
                    if data.l1 % 2 == 0 {
                        let types: Vec<u32> = types_of(&data);
                        return self.weigh(data.l0, &types);
                    }
                    self.stage = Stage::Typing { source: data.l0 };
                    do_one(&mut acts, Act::ReadTypes { source: data.l0 });
                    assert(acts@ =~= seq![Act::ReadTypes { source: data.l0 }]);
                }
                acts
            },
            (Stage::Entering, Happened::Missed) => self.give_up(),
            (Stage::Typing { source }, Happened::Types(types)) => self.weigh(source, &types),
            (Stage::Positioning { source }, Happened::Message { window: to, kind, .. }) => {
                if to == window && kind == atoms.position {
                    let act: Act = self.accept(source);
                    self.stage = Stage::Accepting { source };
                    do_one(&mut acts, act);
                    assert(acts@ =~= seq![act]);
                }
                acts
            },
            (Stage::Positioning { source }, Happened::Missed) => {
                let act: Act = self.accept(source);
                self.stage = Stage::Accepting { source };
                do_one(&mut acts, act);
                assert(acts@ =~= seq![act]);
                acts
            },
            (Stage::Accepting { source }, Happened::Told { ok }) => {
                if !ok {
                    return self.give_up();
                }
                self.stage = Stage::Dropping { source, asked: false };
                do_one(&mut acts, Act::Drive(Drive::ReleaseLeft));
                assert(acts@ =~= seq![Act::Drive(Drive::ReleaseLeft)]);
                acts
            },
            (Stage::Dropping { source, asked }, Happened::Message { window: to, kind, data }) => {
                if to == window && kind == atoms.drop {
                    if asked {
                        let act: Act = self.accept(source);
                        do_one(&mut acts, act);
                        assert(acts@ =~= again(c, source, true));
                    }
                    self.stage = Stage::Asking { source };
                    do_one(&mut acts, Act::AskForList { time: data.l2 });
                } else if to == window && kind == atoms.position {
                    self.stage = Stage::Dropping { source, asked: true };
                }
                acts
            },
            (Stage::Dropping { source, asked }, Happened::Missed) => {
                if asked {
                    let act: Act = self.accept(source);
                    do_one(&mut acts, act);
                    assert(acts@ =~= again(c, source, true));
                }
                self.stage = Stage::Over;
                do_one(&mut acts, Act::Withdraw);
                acts
            },
            (Stage::Asking { source }, Happened::Answered { requestor, property }) => {
                if requestor != window {
                    return acts;
                }
                if property == NONE {
                    return self.end(source, None);
                }
                self.stage = Stage::Listing { source };
                do_one(&mut acts, Act::ReadList);
                assert(acts@ =~= seq![Act::ReadList]);
                acts
            },
            (Stage::Asking { source }, Happened::Missed) => self.end(source, None),
            (Stage::Listing { source }, Happened::List { width, value }) => {
                // A file list is a few hundred bytes; one that arrives in
                // pieces is not one this expects, and is not worth the
                // machinery.
                if width == 8 && value.len() > 0 {
                    self.end(source, Some(value))
                } else {
                    self.end(source, None)
                }
            },
            (Stage::Listing { source }, Happened::Missed) => self.end(source, None),
            _ => acts,
        }
    }
}

// --- what holds of a catch ------------------------------------------------------

/// The button is let go only for a drag that carries files and has been told
/// it is welcome; otherwise it is left exactly as it was.
pub proof fn the_button_is_released_only_for_files(c: CatcherView, happened: HappenedView, i: int)
    requires
        0 <= i < caught(c, happened).1.len(),
        caught(c, happened).1[i] == Act::Drive(Drive::ReleaseLeft),
    ensures
        c.stage is Accepting,
        happened == (HappenedView::Told { ok: true }),
{
}

/// A drag is welcomed only where its types name a list of files.
pub proof fn only_files_are_welcomed(c: CatcherView, happened: HappenedView)
    requires
        caught(c, happened).0.stage is Positioning,
        !(c.stage is Positioning),
    ensures
        match happened {
            HappenedView::Types(types) => types.contains(c.atoms.uri_list),
            HappenedView::Message { data, .. } => types_in(data).contains(c.atoms.uri_list),
            _ => false,
        },
{
}

/// However a catch ends, the window is out of sight after it, and an
/// application whose drop arrived has been told that it is finished.
pub proof fn a_catch_leaves_nothing_behind(c: CatcherView, happened: HappenedView)
    requires
        !(c.stage is Over),
        caught(c, happened).0.stage is Over,
    ensures
        caught(c, happened).1.len() > 0,
        caught(c, happened).1.last() == Act::Withdraw,
        c.stage matches Stage::Asking { source } ==> caught(c, happened).1[0] == completion(
            c,
            source,
        ),
        c.stage matches Stage::Listing { source } ==> caught(c, happened).1[0] == completion(
            c,
            source,
        ),
{
}

/// What is caught has files in it.
pub proof fn a_catch_is_never_empty(c: CatcherView, happened: HappenedView)
    requires
        c.paths is None,
    ensures
        caught(c, happened).0.paths is Some ==> caught(c, happened).0.paths->0.len() > 0,
{
}

} // verus!
