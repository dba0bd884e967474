//! Joining the clipboard exchange to this machine's clipboard and to the link.
//!
//! The exchange decides; this says what to carry out. A change on the local
//! clipboard goes in, an offer to put on it comes out; a paste asks for
//! contents, and the answer arrives from another machine some time later.
//!
//! Files ride along. Where the clipboard would carry a list of paths -- which
//! mean nothing on another machine -- it carries a manifest of names and sizes
//! instead, and a paste pulls the files themselves, piece by piece, into the
//! transfer directory before the pasting application is handed paths that
//! exist.
//!
//! A drag is a copy that never touched the clipboard. Files picked up as the
//! cursor left one machine are announced exactly as a copy would be, with their
//! manifest kept here rather than read from the clipboard; the machine the
//! cursor arrived on is told that this offer is what the cursor carries, pulls
//! the files without waiting for a paste, and drops them.
//!
//! Nothing here touches a clipboard, a disk or a link. What is to be done comes
//! out as effects, in the order in which they are to be done; those that the
//! disk answers are answered before the next is done.

use vstd::prelude::*;

use crate::clipboard::{ClipboardError, ClipboardErrorView};
use crate::control::Role;
use crate::exchange;
use crate::exchange::{contents, Exchange, ExchangeView};
use crate::files::{local_paths, paths_named, utf8_text};
use crate::landing::{
    first_names, landing_plan, names_to_place, plan_landing, refusal, Arriving, Landing, LandingView,
    MAX_ENTRIES,
};
use crate::layout::DeviceId;
use crate::order::Alike;
use crate::proto::{
    copy_of, Bulk, BulkView, ClipError, ClipFormat, ClipSeq, FileOffer, FileOfferView, FormatView,
    TransferId,
};
use crate::survey::{Offered, OfferedView};
use crate::table::{keyed, listed, reversed, sift, stored, value_of, Table};
use crate::text::{add_text, chars_of, decimal, decimal_of, lines, text_of};
use crate::transfer;
use crate::transfer::{Transfer, TransferView};

verus! {

/// How many seconds a paste waits for the far machine before giving up.
///
/// Long enough for a large image over a slow link; short enough that a paste
/// into an application that is waiting on it does not look hung for ever.
pub const FETCH_PATIENCE: u64 = 30;

/// How many seconds a paste of files waits for all of them to arrive.
///
/// The pasting application is blocked for the duration, so this is bounded by
/// patience rather than by bandwidth; the limit on a transfer is what keeps the
/// wait reasonable.
pub const FILES_PATIENCE: u64 = 600;

/// How many manifests this machine keeps serving after copying something else.
/// A paste that began just before the next copy still completes.
pub const OFFERED_KEPT: usize = 4;

// --- what is told to a person -------------------------------------------------------

pub open spec fn reason(why: ClipError) -> Seq<char> {
    match why {
        ClipError::Stale => "that copy has since been replaced"@,
        ClipError::OwnerRefused => "the application that copied it would not hand it over"@,
        ClipError::TooLarge { bytes, limit } => "it is "@ + decimal(bytes as nat)
            + " bytes and the limit is "@ + decimal(limit as nat)
            + "; raise clipboard.max_bytes"@,
        ClipError::Cancelled => "the machine holding it went away"@,
    }
}

/// Why contents could not be had, for a person.
pub fn describe(why: &ClipError) -> (r: String)
    ensures
        r@ == reason(*why),
{
    match why {
        ClipError::Stale => "that copy has since been replaced".to_owned(),
        ClipError::OwnerRefused => {
            "the application that copied it would not hand it over".to_owned()
        },
        ClipError::TooLarge { bytes, limit } => {
            let mut r: Vec<char> = chars_of("it is ");
            let mut number: Vec<char> = decimal_of(*bytes);
            r.append(&mut number);
            add_text(&mut r, " bytes and the limit is ");
            let mut number: Vec<char> = decimal_of(*limit);
            r.append(&mut number);
            add_text(&mut r, "; raise clipboard.max_bytes");
            text_of(&r)
        },
        ClipError::Cancelled => "the machine holding it went away".to_owned(),
    }
}

/// What the other machine is told when the clipboard here could not be read.
pub fn from_backend(e: &ClipboardError) -> (r: ClipError)
    ensures
        r == (if e.deep_view() is NothingUsable {
            ClipError::Stale
        } else {
            ClipError::OwnerRefused
        }),
{
    match e {
        ClipboardError::NothingUsable => ClipError::Stale,
        _ => ClipError::OwnerRefused,
    }
}

/// What a paste comes to once the far machine has answered, or has not.
#[derive(Debug, PartialEq, Eq)]
pub enum Pasted {
    /// These are the contents.
    Contents(Vec<u8>),
    /// This is a manifest: the files are still on the other machine, and the
    /// application pasting wants paths that exist here.
    Manifest(Vec<u8>),
    Failed(ClipboardError),
}

/// What a paste comes to. `answer` is nothing where none came in time.
pub fn paste_answered(format: &ClipFormat, answer: Option<Result<Vec<u8>, ClipError>>) -> (r: Pasted)
    ensures
        match answer {
            Some(Ok(bytes)) => if format.deep_view() == FormatView::Uris {
                r == Pasted::Manifest(bytes)
            } else {
                r == Pasted::Contents(bytes)
            },
            Some(Err(why)) => r is Failed && r->Failed_0.deep_view()
                == ClipboardErrorView::Display(reason(why)),
            None => r is Failed && r->Failed_0.deep_view() == ClipboardErrorView::Display(
                "the other machine did not hand the clipboard over in time"@,
            ),
        },
{
    match answer {
        Some(Ok(bytes)) => match format {
            ClipFormat::Uris => Pasted::Manifest(bytes),
            _ => Pasted::Contents(bytes),
        },
        Some(Err(why)) => Pasted::Failed(ClipboardError::Display(describe(&why))),
        None => Pasted::Failed(
            ClipboardError::Display(
                "the other machine did not hand the clipboard over in time".to_owned(),
            ),
        ),
    }
}

/// What a paste of files comes to. `landed` is nothing where they did not all
/// arrive in time.
pub fn files_answered(landed: Option<Result<Vec<u8>, String>>) -> (r: Result<
    Vec<u8>,
    ClipboardError,
>)
    ensures
        match landed {
            Some(Ok(uris)) => r == Ok::<Vec<u8>, ClipboardError>(uris),
            Some(Err(why)) => r is Err && r->Err_0.deep_view() == ClipboardErrorView::Display(why@),
            None => r is Err && r->Err_0.deep_view() == ClipboardErrorView::Display(
                "the files did not all arrive in time"@,
            ),
        },
{
    match landed {
        Some(Ok(uris)) => Ok(uris),
        Some(Err(why)) => Err(ClipboardError::Display(why)),
        None => Err(ClipboardError::Display("the files did not all arrive in time".to_owned())),
    }
}

// --- what there is to do --------------------------------------------------------------

/// What is to be done.
#[derive(Debug, PartialEq)]
#[allow(inconsistent_fields)]
pub enum Effect {
    Send { to: DeviceId, msg: Bulk },
    /// Put this on the clipboard here, to be fetched when something pastes.
    Offer { seq: ClipSeq, formats: Vec<ClipFormat> },
    /// Give the clipboard back.
    Release,
    /// Read the clipboard here, and hand back what came of it.
    Read { seq: ClipSeq, format: ClipFormat },
    /// Hand this back, as if it had been read.
    Queue { seq: ClipSeq, format: ClipFormat, result: Result<Vec<u8>, ClipError> },
    /// Answer a paste.
    Answer { ticket: u64, result: Result<Vec<u8>, ClipError> },
    /// A list of files was read off the clipboard, and names these: make a
    /// manifest of them.
    Describe { seq: ClipSeq, paths: Vec<String> },
    /// The manifest of what the cursor carries has come: take it apart.
    Unpack { bytes: Vec<u8> },
    /// Read a piece of a file this machine offered, and send it to `to`.
    ReadPiece { to: DeviceId, id: TransferId, index: u32, offset: u64, place: usize },
    MakeFolder { path: Vec<String> },
    MakeFile { path: Vec<String> },
    /// Append to the file that was made last.
    Write { data: Vec<u8> },
    /// The file that was made last is complete. It is this one.
    Finish { path: Vec<String> },
    /// Take away what was half written.
    Remove { path: Vec<String> },
    /// Tell a paste of files that they will not come.
    Refuse { paste: u64, why: String },
    /// All the files are here. They were wanted by this paste, or for a drop.
    Landed { paste: Option<u64>, top_level: Vec<String> },
}

#[allow(inconsistent_fields)]
#[verifier::ext_equal]
pub enum EffectView {
    Send { to: DeviceId, msg: BulkView },
    Offer { seq: ClipSeq, formats: Seq<FormatView> },
    Release,
    Read { seq: ClipSeq, format: FormatView },
    Queue { seq: ClipSeq, format: FormatView, result: Result<Seq<u8>, ClipError> },
    Answer { ticket: u64, result: Result<Seq<u8>, ClipError> },
    Describe { seq: ClipSeq, paths: Seq<Seq<char>> },
    Unpack { bytes: Seq<u8> },
    ReadPiece { to: DeviceId, id: TransferId, index: u32, offset: u64, place: usize },
    MakeFolder { path: Seq<Seq<char>> },
    MakeFile { path: Seq<Seq<char>> },
    Write { data: Seq<u8> },
    Finish { path: Seq<Seq<char>> },
    Remove { path: Seq<Seq<char>> },
    Refuse { paste: u64, why: Seq<char> },
    Landed { paste: Option<u64>, top_level: Seq<Seq<char>> },
}

impl DeepView for Effect {
    type V = EffectView;

    open spec fn deep_view(&self) -> EffectView {
        match self {
            Effect::Send { to, msg } => EffectView::Send { to: *to, msg: msg.deep_view() },
            Effect::Offer { seq, formats } => EffectView::Offer {
                seq: *seq,
                formats: formats.deep_view(),
            },
            Effect::Release => EffectView::Release,
            Effect::Read { seq, format } => EffectView::Read {
                seq: *seq,
                format: format.deep_view(),
            },
            Effect::Queue { seq, format, result } => EffectView::Queue {
                seq: *seq,
                format: format.deep_view(),
                result: contents(*result),
            },
            Effect::Answer { ticket, result } => EffectView::Answer {
                ticket: *ticket,
                result: contents(*result),
            },
            Effect::Describe { seq, paths } => EffectView::Describe {
                seq: *seq,
                paths: paths.deep_view(),
            },
            Effect::Unpack { bytes } => EffectView::Unpack { bytes: bytes@ },
            Effect::ReadPiece { to, id, index, offset, place } => EffectView::ReadPiece {
                to: *to,
                id: *id,
                index: *index,
                offset: *offset,
                place: *place,
            },
            Effect::MakeFolder { path } => EffectView::MakeFolder { path: path.deep_view() },
            Effect::MakeFile { path } => EffectView::MakeFile { path: path.deep_view() },
            Effect::Write { data } => EffectView::Write { data: data@ },
            Effect::Finish { path } => EffectView::Finish { path: path.deep_view() },
            Effect::Remove { path } => EffectView::Remove { path: path.deep_view() },
            Effect::Refuse { paste, why } => EffectView::Refuse { paste: *paste, why: why@ },
            Effect::Landed { paste, top_level } => EffectView::Landed {
                paste: *paste,
                top_level: top_level.deep_view(),
            },
        }
    }
}

/// What the disk has been asked for and has not answered.
#[derive(Debug, Clone, Copy, PartialEq, Eq, Structural)]
pub enum Doing {
    Nothing,
    MakingFolder,
    MakingFile,
    /// A piece of so many bytes, which is the last of its file or not.
    Writing { len: usize, last: bool },
    /// A file with nothing in it.
    FinishingEmpty,
    Finishing,
}

/// Files being pulled for a paste or a drop on this machine.
#[derive(Debug, PartialEq)]
struct Incoming {
    offer: FileOffer,
    landing: Landing,
    /// The entry being written, or the next to start.
    index: usize,
    current: Option<Arriving>,
    doing: Doing,
    /// The paste that is waiting; none where they are for a drop.
    paste: Option<u64>,
}

#[verifier::ext_equal]
pub struct IncomingView {
    pub offer: FileOfferView,
    pub landing: LandingView,
    pub index: int,
    /// How much of the entry has been written, once it has been begun.
    pub current: Option<u64>,
    pub doing: Doing,
    pub paste: Option<u64>,
}

impl DeepView for Incoming {
    type V = IncomingView;

    closed spec fn deep_view(&self) -> IncomingView {
        IncomingView {
            offer: self.offer.deep_view(),
            landing: self.landing.deep_view(),
            index: self.index as int,
            current: match self.current {
                Some(arriving) => Some(arriving@),
                None => None,
            },
            doing: self.doing,
            paste: self.paste,
        }
    }
}

impl IncomingView {
    /// Each entry has its path, and what is being worked on is one of them.
    pub open spec fn sound(self) -> bool {
        &&& self.offer.files.len() == self.landing.paths.len()
        &&& self.offer.files.len() <= MAX_ENTRIES
        &&& 0 <= self.index <= self.offer.files.len()
        &&& self.doing != Doing::Nothing || self.current is Some ==> self.index
            < self.offer.files.len()
        &&& self.doing is Writing ==> self.current is Some && self.current->0
            + self.doing->len <= u64::MAX
    }
}

/// Everything the clipboard side of a daemon keeps track of.
#[verifier::ext_equal]
pub struct SharingView {
    pub me: DeviceId,
    pub role: Role,
    pub exchange: ExchangeView,
    pub transfer: TransferView,
    /// Whether files are shared.
    pub files_enabled: bool,
    /// The most that one transfer may bring.
    pub files_max: u64,
    /// Whether this machine has a clipboard.
    pub live: bool,
    pub next_ticket: u64,
    /// Manifests this machine has offered, newest last, and where the files are.
    pub offered: Seq<OfferedView>,
    pub next_transfer: u64,
    pub incoming: Option<IncomingView>,
    /// Manifests offered for a drag. Nothing put them on the clipboard, so a
    /// request for them is answered from here.
    pub synthetic: Seq<(ClipSeq, Seq<u8>)>,
    /// Requests whose answer is a manifest to drop here, not to paste.
    pub drop_tickets: Seq<u64>,
    /// A drag the cursor arrived with, whose offer has not arrived yet.
    pub pending_drop: Option<ClipSeq>,
}

/// The state that follows, and what is to be done.
pub struct Step {
    pub after: SharingView,
    pub out: Seq<EffectView>,
}

pub open spec fn not_files() -> spec_fn(FormatView) -> bool {
    |f: FormatView| f != FormatView::Uris
}

pub open spec fn other_than(ticket: u64) -> spec_fn(u64) -> bool {
    |t: u64| t != ticket
}

pub open spec fn newer_than(oldest: int) -> spec_fn((ClipSeq, Seq<u8>)) -> bool {
    |e: (ClipSeq, Seq<u8>)| e.0.counter > oldest
}

/// The last few of them.
pub open spec fn kept(offered: Seq<OfferedView>) -> Seq<OfferedView> {
    if offered.len() > OFFERED_KEPT {
        offered.skip(offered.len() - OFFERED_KEPT)
    } else {
        offered
    }
}

pub open spec fn find_offered(offered: Seq<OfferedView>, id: TransferId) -> Option<OfferedView>
    decreases offered.len(),
{
    if offered.len() == 0 {
        None
    } else if offered[0].offer.id == id {
        Some(offered[0])
    } else {
        find_offered(offered.skip(1), id)
    }
}

pub open spec fn abort(to: DeviceId, id: TransferId, reason: Seq<char>) -> EffectView {
    EffectView::Send { to, msg: BulkView::FileAbort { id, reason } }
}

pub open spec fn out_of_order() -> Seq<char> {
    "could not write the arriving file: a piece arrived out of order"@
}

/// Whether a message is about files.
pub open spec fn about_files(msg: BulkView) -> bool {
    msg is FileOffer || msg is FileRequest || msg is FileChunk || msg is FileDone
        || msg is FileAbort
}

impl SharingView {
    pub open spec fn still(self) -> Step {
        Step { after: self, out: seq![] }
    }
}

impl Step {
    pub open spec fn followed_by(self, next: Step) -> Step {
        Step { after: next.after, out: self.out + next.out }
    }
}

// --- the clipboard ----------------------------------------------------------------------

impl SharingView {
    /// The local clipboard is to be read: a drag's manifest was made here and
    /// never on the clipboard, and a machine without a clipboard says so
    /// straight away rather than leaving it to time out.
    pub open spec fn read_local(self, seq: ClipSeq, format: FormatView) -> EffectView {
        if format == FormatView::Uris && value_of(self.synthetic, seq) is Some {
            EffectView::Queue { seq, format, result: Ok(value_of(self.synthetic, seq)->0) }
        } else if !self.live {
            EffectView::Queue { seq, format, result: Err(ClipError::OwnerRefused) }
        } else {
            EffectView::Read { seq, format }
        }
    }

    /// What one thing the exchange wants comes to here.
    pub open spec fn apply_one(self, output: exchange::OutputView) -> Step {
        match output {
            exchange::OutputView::Send { to, msg } => Step {
                after: self,
                out: seq![EffectView::Send { to, msg }],
            },
            exchange::OutputView::OfferLocally { seq, formats } => {
                let shared = if self.files_enabled {
                    formats
                } else {
                    formats.filter(not_files())
                };
                if !self.live || (!self.files_enabled && shared.len() == 0) {
                    self.still()
                } else {
                    Step { after: self, out: seq![EffectView::Offer { seq, formats: shared }] }
                }
            },
            exchange::OutputView::ReleaseLocally => if self.live {
                Step { after: self, out: seq![EffectView::Release] }
            } else {
                self.still()
            },
            exchange::OutputView::ReadLocal { seq, format } => Step {
                after: self,
                out: seq![self.read_local(seq, format)],
            },
            exchange::OutputView::Deliver { ticket, result } => if self.drop_tickets.contains(
                ticket,
            ) {
                Step {
                    after: SharingView {
                        drop_tickets: self.drop_tickets.filter(other_than(ticket)),
                        ..self
                    },
                    out: match result {
                        Ok(bytes) => seq![EffectView::Unpack { bytes }],
                        Err(_) => seq![],
                    },
                }
            } else {
                Step { after: self, out: seq![EffectView::Answer { ticket, result }] }
            },
        }
    }

    pub open spec fn apply(self, outputs: Seq<exchange::OutputView>) -> Step
        decreases outputs.len(),
    {
        if outputs.len() == 0 {
            self.still()
        } else {
            let before = self.apply(outputs.drop_last());
            before.followed_by(before.after.apply_one(outputs.last()))
        }
    }

    /// The exchange is told something.
    pub open spec fn exchanged(self, input: exchange::InputView, now: u64) -> Step {
        let step = self.exchange.step(input, now);
        SharingView { exchange: step.after, ..self }.apply(step.out)
    }

    /// The clipboard here changed.
    pub open spec fn changed(self, formats: Seq<FormatView>, now: u64) -> Step {
        let shared = if self.files_enabled {
            formats
        } else {
            formats.filter(not_files())
        };
        self.exchanged(exchange::InputView::LocalChanged(shared), now)
    }

    /// Something here is pasting.
    pub open spec fn wanted(self, seq: ClipSeq, format: FormatView, now: u64) -> Step {
        SharingView { next_ticket: (self.next_ticket + 1) as u64, ..self }.exchanged(
            exchange::InputView::Wanted { ticket: self.next_ticket, seq, format },
            now,
        )
    }

    /// The clipboard here has been read. A list of files that was read off it
    /// has to be turned into a manifest first; one that names nothing here is
    /// not handed over.
    pub open spec fn read_done(
        self,
        seq: ClipSeq,
        format: FormatView,
        result: Result<Seq<u8>, ClipError>,
        windows: bool,
        now: u64,
    ) -> Step {
        if format == FormatView::Uris && value_of(self.synthetic, seq) is None && result is Ok {
            let paths = paths_named(lines(utf8_text(result->Ok_0)), windows);
            if paths.len() == 0 {
                self.described(seq, None, now)
            } else {
                Step { after: self, out: seq![EffectView::Describe { seq, paths }] }
            }
        } else {
            self.exchanged(exchange::InputView::ReadDone { seq, format, result }, now)
        }
    }

    /// A manifest was made of what was copied, or could not be.
    pub open spec fn described(
        self,
        seq: ClipSeq,
        made: Option<(OfferedView, Seq<u8>)>,
        now: u64,
    ) -> Step {
        match made {
            Some((offered, bytes)) => SharingView {
                offered: kept(self.offered.push(offered)),
                ..self
            }.exchanged(
                exchange::InputView::ReadDone { seq, format: FormatView::Uris, result: Ok(bytes) },
                now,
            ),
            None => self.exchanged(
                exchange::InputView::ReadDone {
                    seq,
                    format: FormatView::Uris,
                    result: Err(ClipError::OwnerRefused),
                },
                now,
            ),
        }
    }

    /// The offer that a copy of files made now would travel under, if it would
    /// travel.
    pub open spec fn announced(self, now: u64) -> Option<ClipSeq> {
        let after = self.exchange.step(
            exchange::InputView::LocalChanged(seq![FormatView::Uris]),
            now,
        ).after;
        if !self.files_enabled || after.counter == self.exchange.counter {
            None
        } else {
            match after.local {
                Some(own) => Some(own.seq),
                None => None,
            }
        }
    }

    /// Files were picked up from a drag as the cursor left this machine, and
    /// this is their manifest.
    pub open spec fn dragged(self, offered: OfferedView, bytes: Seq<u8>, now: u64) -> Step {
        let step = self.exchange.step(
            exchange::InputView::LocalChanged(seq![FormatView::Uris]),
            now,
        );
        if !self.files_enabled {
            self.still()
        } else {
            SharingView {
                exchange: step.after,
                offered: kept(self.offered.push(offered)),
                synthetic: match self.announced(now) {
                    Some(seq) => stored(self.synthetic, seq, bytes).filter(
                        newer_than(
                            if seq.counter > OFFERED_KEPT {
                                seq.counter - OFFERED_KEPT
                            } else {
                                0
                            },
                        ),
                    ),
                    None => self.synthetic,
                },
                ..self
            }.apply(step.out)
        }
    }

    /// The cursor arrived here carrying this offer: its files are pulled now,
    /// without waiting for a paste. An offer that has not arrived is waited
    /// for; it is moments away.
    pub open spec fn drop_here(self, seq: ClipSeq, now: u64) -> Step {
        if !self.files_enabled {
            self.still()
        } else if !(self.exchange.remote is Some && self.exchange.remote->0.seq == seq) {
            SharingView { pending_drop: Some(seq), ..self }.still()
        } else {
            SharingView {
                pending_drop: None,
                next_ticket: (self.next_ticket + 1) as u64,
                drop_tickets: if self.drop_tickets.contains(self.next_ticket) {
                    self.drop_tickets
                } else {
                    self.drop_tickets.push(self.next_ticket)
                },
                ..self
            }.exchanged(
                exchange::InputView::Wanted {
                    ticket: self.next_ticket,
                    seq,
                    format: FormatView::Uris,
                },
                now,
            )
        }
    }
}

// --- files -----------------------------------------------------------------------------

impl SharingView {
    /// The pull of a transfer is over. Whatever was half written is not left
    /// looking like a file.
    pub open spec fn finish_pull(self, id: TransferId, why: Seq<char>) -> Step {
        match self.incoming {
            Some(incoming) => if incoming.offer.id == id {
                Step {
                    after: SharingView { incoming: None, ..self },
                    out: (if incoming.current is Some {
                        seq![EffectView::Remove { path: incoming.landing.paths[incoming.index] }]
                    } else {
                        seq![]
                    }) + (match incoming.paste {
                        Some(paste) => seq![EffectView::Refuse { paste, why }],
                        None => seq![],
                    }),
                }
            } else {
                self.still()
            },
            None => self.still(),
        }
    }

    /// A pull cannot go on: it is over, and nothing more is asked for.
    pub open spec fn fail_pull(self, id: TransferId, why: Seq<char>) -> Step {
        let over = self.finish_pull(id, why);
        Step {
            after: SharingView { transfer: over.after.transfer.pull_over(id), ..over.after },
            out: over.out,
        }
    }

    /// A piece of a file this machine offered is wanted elsewhere.
    pub open spec fn piece_of(self, to: DeviceId, id: TransferId, index: u32, offset: u64) -> EffectView {
        match find_offered(self.offered, id) {
            None => abort(to, id, "those files are no longer on offer"@),
            Some(offered) => if index >= offered.offer.files.len() || index
                >= offered.places.len() {
                abort(to, id, "no such file in that copy"@)
            } else if offered.offer.files[index as int].is_dir {
                abort(to, id, "that entry is a folder"@)
            } else {
                EffectView::ReadPiece {
                    to,
                    id,
                    index,
                    offset,
                    place: offered.places[index as int],
                }
            },
        }
    }

    /// A piece has arrived. One that is not of the file being written is
    /// nothing to this machine any more; one that does not follow on from what
    /// was written ends the pull.
    pub open spec fn piece_arrived(
        self,
        id: TransferId,
        index: u32,
        offset: u64,
        data: Seq<u8>,
        last: bool,
    ) -> Step {
        match self.incoming {
            Some(incoming) => if incoming.offer.id != id || incoming.index != index
                || incoming.current is None || incoming.doing != Doing::Nothing {
                self.still()
            } else if offset != incoming.current->0 || offset + data.len() > u64::MAX {
                self.fail_pull(id, out_of_order())
            } else {
                Step {
                    after: SharingView {
                        incoming: Some(
                            IncomingView {
                                doing: Doing::Writing { len: data.len() as usize, last },
                                ..incoming
                            },
                        ),
                        ..self
                    },
                    out: seq![EffectView::Write { data }],
                }
            },
            None => self.still(),
        }
    }

    /// What one thing the transfer wants comes to here.
    pub open spec fn settle_one(self, output: transfer::OutputView) -> Step {
        match output {
            transfer::OutputView::Send { to, msg } => Step {
                after: self,
                out: seq![EffectView::Send { to, msg }],
            },
            transfer::OutputView::ReadFile { to, id, index, offset } => Step {
                after: self,
                out: seq![self.piece_of(to, id, index, offset)],
            },
            transfer::OutputView::Chunk { id, index, offset, data, last } => self.piece_arrived(
                id,
                index,
                offset,
                data,
                last,
            ),
            transfer::OutputView::Failed(id) => self.finish_pull(
                id,
                "the machine holding the files went away"@,
            ),
        }
    }

    pub open spec fn settle(self, outputs: Seq<transfer::OutputView>) -> Step
        decreases outputs.len(),
    {
        if outputs.len() == 0 {
            self.still()
        } else {
            let before = self.settle(outputs.drop_last());
            before.followed_by(before.after.settle_one(outputs.last()))
        }
    }

    /// The transfer is told something.
    pub open spec fn transferred(self, input: transfer::InputView) -> Step {
        let step = self.transfer.step(input);
        SharingView { transfer: step.after, ..self }.settle(step.out)
    }

    /// The piece of the file being written that comes next is asked for.
    pub open spec fn ask(self) -> Step {
        let incoming = self.incoming->0;
        self.transferred(
            transfer::InputView::Pull {
                id: incoming.offer.id,
                index: incoming.index as u32,
                offset: incoming.current->0,
            },
        )
    }

    /// What comes next is created; when nothing does, everything has landed.
    pub open spec fn advance(self) -> Step {
        let incoming = self.incoming->0;
        if incoming.index >= incoming.offer.files.len() {
            Step {
                after: SharingView { incoming: None, ..self },
                out: seq![
                    EffectView::Landed {
                        paste: incoming.paste,
                        top_level: incoming.landing.top_level,
                    },
                ],
            }
        } else {
            let path = incoming.landing.paths[incoming.index];
            if incoming.offer.files[incoming.index].is_dir {
                Step {
                    after: SharingView {
                        incoming: Some(IncomingView { doing: Doing::MakingFolder, ..incoming }),
                        ..self
                    },
                    out: seq![EffectView::MakeFolder { path }],
                }
            } else {
                Step {
                    after: SharingView {
                        incoming: Some(IncomingView { doing: Doing::MakingFile, ..incoming }),
                        ..self
                    },
                    out: seq![EffectView::MakeFile { path }],
                }
            }
        }
    }

    /// The entry is done with.
    pub open spec fn next_entry(self) -> Step {
        let incoming = self.incoming->0;
        SharingView {
            incoming: Some(
                IncomingView {
                    index: incoming.index + 1,
                    current: None,
                    doing: Doing::Nothing,
                    ..incoming
                },
            ),
            ..self
        }.advance()
    }

    /// The disk did as it was asked.
    pub open spec fn disk_done(self) -> Step {
        match self.incoming {
            None => self.still(),
            Some(incoming) => {
                let id = incoming.offer.id;
                let expected = incoming.offer.files[incoming.index].bytes;
                match incoming.doing {
                    Doing::Nothing => self.still(),
                    Doing::MakingFolder => self.next_entry(),
                    Doing::FinishingEmpty => self.next_entry(),
                    Doing::Finishing => self.next_entry(),
                    Doing::MakingFile => if expected == 0 {
                        Step {
                            after: SharingView {
                                incoming: Some(
                                    IncomingView { doing: Doing::FinishingEmpty, ..incoming },
                                ),
                                ..self
                            },
                            out: seq![
                                EffectView::Finish { path: incoming.landing.paths[incoming.index] },
                            ],
                        }
                    } else {
                        SharingView {
                            incoming: Some(
                                IncomingView {
                                    current: Some(0),
                                    doing: Doing::Nothing,
                                    ..incoming
                                },
                            ),
                            ..self
                        }.ask()
                    },
                    Doing::Writing { len, last } => {
                        let written = (incoming.current->0 + len) as u64;
                        let wrote = SharingView {
                            incoming: Some(
                                IncomingView {
                                    current: Some(written),
                                    doing: Doing::Nothing,
                                    ..incoming
                                },
                            ),
                            ..self
                        };
                        if written > expected {
                            wrote.fail_pull(id, "a file arrived larger than it was said to be"@)
                        } else if !last {
                            wrote.ask()
                        } else if written != expected {
                            wrote.fail_pull(id, "a file arrived shorter than it was said to be"@)
                        } else {
                            Step {
                                after: SharingView {
                                    incoming: Some(
                                        IncomingView {
                                            current: None,
                                            doing: Doing::Finishing,
                                            ..incoming
                                        },
                                    ),
                                    ..self
                                },
                                out: seq![
                                EffectView::Finish { path: incoming.landing.paths[incoming.index] },
                            ],
                            }
                        }
                    },
                }
            },
        }
    }

    /// The disk would not. `shown` is the path as a person would read it.
    pub open spec fn disk_failed(self, shown: Seq<char>, error: Seq<char>) -> Step {
        match self.incoming {
            None => self.still(),
            Some(incoming) => {
                let id = incoming.offer.id;
                match incoming.doing {
                    Doing::Nothing => self.still(),
                    Doing::MakingFolder => self.fail_pull(
                        id,
                        "could not create "@ + shown + ": "@ + error,
                    ),
                    Doing::MakingFile => self.fail_pull(
                        id,
                        "could not create "@ + shown + ": "@ + error,
                    ),
                    Doing::FinishingEmpty => self.fail_pull(
                        id,
                        "could not write "@ + shown + ": "@ + error,
                    ),
                    Doing::Writing { len, last } => self.fail_pull(
                        id,
                        "could not write the arriving file: "@ + error,
                    ),
                    Doing::Finishing => self.fail_pull(
                        id,
                        "could not finish writing a file: "@ + error,
                    ),
                }
            },
        }
    }

    pub open spec fn refuse(self, paste: Option<u64>, why: Seq<char>) -> Step {
        Step {
            after: self,
            out: match paste {
                Some(paste) => seq![EffectView::Refuse { paste, why }],
                None => seq![],
            },
        }
    }

    /// Files from elsewhere are wanted here -- pasted, or dropped: where they
    /// go is decided, and the first is begun.
    pub open spec fn begin_pull(
        self,
        offer: FileOfferView,
        paste: Option<u64>,
        present: Seq<Seq<char>>,
    ) -> Step {
        if !self.files_enabled {
            self.refuse(paste, "file transfer is turned off here"@)
        } else if self.incoming is Some {
            self.refuse(
                paste,
                "another set of files is still arriving; try again when it has"@,
            )
        } else {
            match landing_plan(offer, present, self.files_max) {
                Err(why) => self.refuse(paste, "refusing the files: "@ + refusal(why)),
                Ok(landing) => SharingView {
                    incoming: Some(
                        IncomingView {
                            offer,
                            landing,
                            index: 0,
                            current: None,
                            doing: Doing::Nothing,
                            paste,
                        },
                    ),
                    ..self
                }.advance(),
            }
        }
    }
}

// --- the other machines -------------------------------------------------------------------

impl SharingView {
    /// A machine's link is up. A client's one peer is the server, through which
    /// every file is fetched.
    pub open spec fn peer_up(self, peer: DeviceId, now: u64) -> Step {
        let ready = if self.role == Role::Client {
            SharingView { transfer: TransferView { hub: Some(peer), ..self.transfer }, ..self }
        } else {
            self
        };
        let files = ready.transferred(transfer::InputView::PeerUp(peer));
        files.followed_by(files.after.exchanged(exchange::InputView::PeerUp(peer), now))
    }

    pub open spec fn peer_gone(self, peer: DeviceId, now: u64) -> Step {
        let files = self.transferred(transfer::InputView::PeerGone(peer));
        files.followed_by(files.after.exchanged(exchange::InputView::PeerGone(peer), now))
    }

    /// A machine said something. A drag notice that got here before its offer
    /// waits for exactly this.
    pub open spec fn peer_said(self, from: DeviceId, msg: BulkView, now: u64) -> Step {
        if about_files(msg) {
            self.transferred(transfer::InputView::FromPeer { from, msg })
        } else {
            let heard = self.exchanged(exchange::InputView::FromPeer { from, msg }, now);
            match heard.after.pending_drop {
                Some(seq) => if heard.after.exchange.remote is Some
                    && heard.after.exchange.remote->0.seq == seq {
                    heard.followed_by(heard.after.drop_here(seq, now))
                } else {
                    heard
                },
                None => heard,
            }
        }
    }
}

// --- carrying it out ---------------------------------------------------------------------

fn emit(out: &mut Vec<Effect>, e: Effect)
    ensures
        final(out).deep_view() == old(out).deep_view().push(e.deep_view()),
{
    let ghost before = out.deep_view();
    let ghost added = e.deep_view();
    out.push(e);
    assert(out.deep_view() =~= before.push(added));
}

/// A manifest and how it travels, if one was made.
pub open spec fn manifest(made: Option<(Offered, Vec<u8>)>) -> Option<(OfferedView, Seq<u8>)> {
    match made {
        Some(m) => Some((m.0.deep_view(), m.1@)),
        None => None,
    }
}

fn without_files(formats: Vec<ClipFormat>) -> (r: Vec<ClipFormat>)
    ensures
        r.deep_view() == formats.deep_view().filter(not_files()),
{
    let mut formats: Vec<ClipFormat> = formats;
    let keep = |f: &ClipFormat| -> (r: bool)
        ensures
            r == (f.deep_view() != FormatView::Uris),
        { !f.same(&ClipFormat::Uris) };
    let _files: Vec<ClipFormat> = sift(&mut formats, keep, Ghost(not_files()));
    formats
}

/// The clipboard side of a daemon, whichever role it plays.
pub struct Sharing {
    me: DeviceId,
    role: Role,
    exchange: Exchange,
    transfer: Transfer,
    files_enabled: bool,
    files_max: u64,
    live: bool,
    next_ticket: u64,
    offered: Vec<Offered>,
    next_transfer: u64,
    incoming: Option<Incoming>,
    synthetic: Table<ClipSeq, Vec<u8>>,
    drop_tickets: Vec<u64>,
    pending_drop: Option<ClipSeq>,
}

impl View for Sharing {
    type V = SharingView;

    closed spec fn view(&self) -> SharingView {
        SharingView {
            me: self.me,
            role: self.role,
            exchange: self.exchange@,
            transfer: self.transfer@,
            files_enabled: self.files_enabled,
            files_max: self.files_max,
            live: self.live,
            next_ticket: self.next_ticket,
            offered: self.offered.deep_view(),
            next_transfer: self.next_transfer,
            incoming: self.incoming.deep_view(),
            synthetic: self.synthetic.entries(),
            drop_tickets: self.drop_tickets@,
            pending_drop: self.pending_drop,
        }
    }
}

impl Sharing {
    /// Its parts are well formed, and what is arriving is.
    pub closed spec fn wf(&self) -> bool {
        &&& self.exchange.wf()
        &&& self.transfer.wf()
        &&& keyed(self@.synthetic)
        &&& self@.incoming is Some ==> self@.incoming->0.sound()
    }

    /// Start sharing. Without a clipboard the exchange still runs: a server
    /// with no clipboard of its own still carries offers between its clients.
    pub fn start(
        me: DeviceId,
        role: Role,
        allowed: Vec<ClipFormat>,
        max_bytes: u64,
        enabled: bool,
        files_enabled: bool,
        files_max: u64,
        live: bool,
    ) -> (r: Sharing)
        ensures
            r.wf(),
            r@ == (SharingView {
                me,
                role,
                exchange: ExchangeView {
                    me,
                    peers: seq![],
                    counter: 0,
                    allowed: allowed.deep_view(),
                    max_bytes,
                    enabled,
                    local: None,
                    remote: None,
                    cache: seq![],
                    reading: seq![],
                    fetching: seq![],
                    waiting: seq![],
                },
                transfer: TransferView {
                    me,
                    hub: None,
                    peers: seq![],
                    relays: seq![],
                    pulling: seq![],
                    awaiting: seq![],
                },
                files_enabled,
                files_max,
                live,
                next_ticket: 1,
                offered: seq![],
                next_transfer: 1,
                incoming: None,
                synthetic: seq![],
                drop_tickets: seq![],
                pending_drop: None,
            }),
    {
        let mut exchange: Exchange = Exchange::new(me, allowed, max_bytes);
        exchange.set_enabled(enabled);
        let r: Sharing = Sharing {
            me,
            role,
            exchange,
            transfer: Transfer::new(me, None),
            files_enabled,
            files_max,
            live,
            next_ticket: 1,
            offered: Vec::new(),
            next_transfer: 1,
            incoming: None,
            synthetic: Table::new(),
            drop_tickets: Vec::new(),
            pending_drop: None,
        };
        proof {
            assert(r.offered.deep_view() =~= seq![]);
            assert(r.synthetic.entries() =~= seq![]);
        }
        r
    }

    pub fn files_enabled(&self) -> (r: bool)
        ensures
            r == self@.files_enabled,
    {
        self.files_enabled
    }

    /// Whether there are numbers left to give out. There are enough that none
    /// ever runs short.
    pub fn has_room(&self) -> (r: bool)
        ensures
            r == (self@.next_ticket < u64::MAX && self@.next_transfer < u64::MAX
                && self@.exchange.counter < u64::MAX),
    {
        self.next_ticket < u64::MAX && self.next_transfer < u64::MAX && self.exchange.has_room()
    }

    /// Take a changed configuration into use.
    pub fn reconfigure(
        &mut self,
        allowed: Vec<ClipFormat>,
        max_bytes: u64,
        enabled: bool,
        files_enabled: bool,
        files_max: u64,
    )
        requires
            old(self).wf(),
        ensures
            final(self).wf(),
            final(self)@ == (SharingView {
                exchange: ExchangeView {
                    allowed: allowed.deep_view(),
                    max_bytes,
                    enabled,
                    ..old(self)@.exchange
                },
                files_enabled,
                files_max,
                ..old(self)@
            }),
    {
        self.exchange.set_enabled(enabled);
        self.exchange.set_allowed(allowed);
        self.exchange.set_max_bytes(max_bytes);
        self.files_enabled = files_enabled;
        self.files_max = files_max;
    }

    /// A number for a transfer from here that no other has.
    pub fn claim_id(&mut self) -> (id: TransferId)
        requires
            old(self).wf(),
            old(self)@.next_transfer < u64::MAX,
        ensures
            final(self).wf(),
            id == (TransferId { device: old(self)@.me, counter: old(self)@.next_transfer }),
            final(self)@ == (SharingView {
                next_transfer: (old(self)@.next_transfer + 1) as u64,
                ..old(self)@
            }),
    {
        let id: TransferId = TransferId { device: self.me, counter: self.next_transfer };
        self.next_transfer = self.next_transfer + 1;
        id
    }

    fn read_local(&self, seq: ClipSeq, format: ClipFormat) -> (r: Effect)
        ensures
            r.deep_view() == self@.read_local(seq, format.deep_view()),
    {
        if format.same(&ClipFormat::Uris) {
            if let Some(bytes) = self.synthetic.get(&seq) {
                assert(bytes.deep_view() =~= bytes@);
                return Effect::Queue { seq, format, result: Ok(copy_of(bytes)) };
            }
        }
        if !self.live {
            return Effect::Queue { seq, format, result: Err(ClipError::OwnerRefused) };
        }
        Effect::Read { seq, format }
    }

    fn apply_one(&mut self, output: exchange::Output, out: &mut Vec<Effect>)
        requires
            old(self).wf(),
        ensures
            final(self).wf(),
            final(self)@ == old(self)@.apply_one(output.deep_view()).after,
            final(out).deep_view() == old(out).deep_view() + old(self)@.apply_one(
                output.deep_view(),
            ).out,
    {
        let ghost first = self@;
        let ghost given = output.deep_view();
        let ghost sent = out.deep_view();
        match output {
            exchange::Output::Send { to, msg } => emit(out, Effect::Send { to, msg }),
            exchange::Output::OfferLocally { seq, formats } => {
                let shared: Vec<ClipFormat> = if self.files_enabled {
                    formats
                } else {
                    without_files(formats)
                };
                assert(shared.deep_view().len() == shared@.len());
                if self.live && (self.files_enabled || shared.len() > 0) {
                    emit(out, Effect::Offer { seq, formats: shared });
                }
            },
            exchange::Output::ReleaseLocally => {
                if self.live {
                    emit(out, Effect::Release);
                }
            },
            exchange::Output::ReadLocal { seq, format } => {
                let e: Effect = self.read_local(seq, format);
                emit(out, e);
            },
            exchange::Output::Deliver { ticket, result } => {
                if listed(&self.drop_tickets, &ticket) {
                    assert(self.drop_tickets.deep_view() =~= self.drop_tickets@);
                    let other = |t: &u64| -> (r: bool)
                        ensures
                            r == (t.deep_view() != ticket),
                        { *t != ticket };
                    let _one: Vec<u64> = sift(
                        &mut self.drop_tickets,
                        other,
                        Ghost(other_than(ticket)),
                    );
                    assert(self.drop_tickets.deep_view() =~= self.drop_tickets@);
                    if let Ok(bytes) = result {
                        emit(out, Effect::Unpack { bytes });
                    }
                } else {
                    assert(self.drop_tickets.deep_view() =~= self.drop_tickets@);
                    emit(out, Effect::Answer { ticket, result });
                }
            },
        }
        assert(out.deep_view() =~= sent + first.apply_one(given).out);
    }

    fn apply(&mut self, outputs: Vec<exchange::Output>, out: &mut Vec<Effect>)
        requires
            old(self).wf(),
        ensures
            final(self).wf(),
            final(self)@ == old(self)@.apply(outputs.deep_view()).after,
            final(out).deep_view() == old(out).deep_view() + old(self)@.apply(
                outputs.deep_view(),
            ).out,
    {
        let ghost first = self@;
        let ghost all = outputs.deep_view();
        let ghost sent = out.deep_view();
        let ghost given = outputs@;
        let mut left: Vec<exchange::Output> = reversed(outputs);
        let ghost mut done: int = 0;
        proof {
            assert(left@ =~= given.skip(0).reverse());
            assert(all.take(0) =~= seq![]);
            assert(sent + first.apply(all.take(0)).out =~= sent);
        }
        while left.len() > 0
            invariant
                self.wf(),
                0 <= done <= given.len(),
                all.len() == given.len(),
                forall|i: int| 0 <= i < all.len() ==> #[trigger] all[i] == given[i].deep_view(),
                left@ == given.skip(done).reverse(),
                self@ == first.apply(all.take(done)).after,
                out.deep_view() == sent + first.apply(all.take(done)).out,
            decreases left.len(),
        {
            let ghost before = left@;
            match left.pop() {
                Some(output) => {
                    proof {
                        assert(before.last() == given[done]);
                        assert(left@ =~= given.skip(done + 1).reverse());
                        assert(output.deep_view() == all[done]);
                        assert(all.take(done + 1).drop_last() =~= all.take(done));
                        assert(all.take(done + 1).last() == all[done]);
                    }
                    let ghost so_far = first.apply(all.take(done));
                    self.apply_one(output, out);
                    proof {
                        assert(out.deep_view() =~= sent + first.apply(all.take(done + 1)).out);
                        done = done + 1;
                    }
                },
                None => {},
            }
        }
        proof {
            assert(given.skip(done).reverse().len() == 0);
            assert(all.take(done) =~= all);
        }
    }
}

impl Sharing {
    fn exchanged(&mut self, input: exchange::Input, now: u64, out: &mut Vec<Effect>)
        requires
            old(self).wf(),
            input is LocalChanged ==> old(self)@.exchange.counter < u64::MAX,
        ensures
            final(self).wf(),
            final(self)@ == old(self)@.exchanged(input.deep_view(), now).after,
            final(out).deep_view() == old(out).deep_view() + old(self)@.exchanged(
                input.deep_view(),
                now,
            ).out,
    {
        let outputs: Vec<exchange::Output> = self.exchange.handle(input, now);
        self.apply(outputs, out);
    }

    /// The clipboard here changed.
    pub fn changed(&mut self, formats: Vec<ClipFormat>, now: u64) -> (out: Vec<Effect>)
        requires
            old(self).wf(),
            old(self)@.exchange.counter < u64::MAX,
        ensures
            final(self).wf(),
            final(self)@ == old(self)@.changed(formats.deep_view(), now).after,
            out.deep_view() == old(self)@.changed(formats.deep_view(), now).out,
    {
        let ghost first = self@;
        let ghost given = formats.deep_view();
        let mut out: Vec<Effect> = Vec::new();
        let shared: Vec<ClipFormat> = if self.files_enabled {
            formats
        } else {
            without_files(formats)
        };
        self.exchanged(exchange::Input::LocalChanged(shared), now, &mut out);
        assert(out.deep_view() =~= first.changed(given, now).out);
        out
    }

    /// Something here is pasting. The answer comes under the ticket.
    pub fn wanted(&mut self, seq: ClipSeq, format: ClipFormat, now: u64) -> (r: (u64, Vec<Effect>))
        requires
            old(self).wf(),
            old(self)@.next_ticket < u64::MAX,
        ensures
            final(self).wf(),
            r.0 == old(self)@.next_ticket,
            final(self)@ == old(self)@.wanted(seq, format.deep_view(), now).after,
            r.1.deep_view() == old(self)@.wanted(seq, format.deep_view(), now).out,
    {
        let ghost first = self@;
        let ghost given = format.deep_view();
        let mut out: Vec<Effect> = Vec::new();
        let ticket: u64 = self.next_ticket;
        self.next_ticket = ticket + 1;
        self.exchanged(exchange::Input::Wanted { ticket, seq, format }, now, &mut out);
        assert(out.deep_view() =~= first.wanted(seq, given, now).out);
        (ticket, out)
    }

    /// The clipboard here has been read. On Windows a list of files names paths
    /// as Windows writes them.
    pub fn read_done(
        &mut self,
        seq: ClipSeq,
        format: ClipFormat,
        result: Result<Vec<u8>, ClipError>,
        windows: bool,
        now: u64,
    ) -> (out: Vec<Effect>)
        requires
            old(self).wf(),
        ensures
            final(self).wf(),
            final(self)@ == old(self)@.read_done(
                seq,
                format.deep_view(),
                contents(result),
                windows,
                now,
            ).after,
            out.deep_view() == old(self)@.read_done(
                seq,
                format.deep_view(),
                contents(result),
                windows,
                now,
            ).out,
    {
        let ghost first = self@;
        let ghost given = format.deep_view();
        let ghost got = contents(result);
        let mut out: Vec<Effect> = Vec::new();
        assert(out.deep_view() =~= seq![]);
        let listed_files: bool = format.same(&ClipFormat::Uris) && !self.synthetic.contains_key(
            &seq,
        );
        let result: Result<Vec<u8>, ClipError> = match result {
            Ok(bytes) => {
                if listed_files {
                    let paths: Vec<String> = local_paths(bytes.as_slice(), windows);
                    assert(paths.deep_view().len() == paths@.len());
                    if paths.len() == 0 {
                        return self.described(seq, None, now);
                    }
                    emit(&mut out, Effect::Describe { seq, paths });
                    assert(out.deep_view() =~= first.read_done(seq, given, got, windows, now).out);
                    return out;
                }
                Ok(bytes)
            },
            Err(why) => Err(why),
        };
        self.exchanged(exchange::Input::ReadDone { seq, format, result }, now, &mut out);
        assert(out.deep_view() =~= first.read_done(seq, given, got, windows, now).out);
        out
    }

    /// Keep serving a manifest, and the last few before it.
    fn keep_offered(&mut self, offered: Offered)
        requires
            old(self).wf(),
        ensures
            final(self).wf(),
            final(self)@ == (SharingView {
                offered: kept(old(self)@.offered.push(offered.deep_view())),
                ..old(self)@
            }),
    {
        let ghost all = self.offered.deep_view().push(offered.deep_view());
        let ghost first = self@;
        self.offered.push(offered);
        assert(self.offered.deep_view() =~= all);
        assert(all.skip(0) =~= all);
        let ghost mut gone: int = 0;
        while self.offered.len() > OFFERED_KEPT
            invariant
                0 <= gone,
                gone == 0 || gone <= all.len() - OFFERED_KEPT,
                gone <= all.len(),
                self.offered.deep_view() == all.skip(gone),
                self@ == (SharingView { offered: all.skip(gone), ..first }),
                first.synthetic == self.synthetic.entries(),
                self.exchange.wf(),
                self.transfer.wf(),
                keyed(first.synthetic),
                first.incoming is Some ==> first.incoming->0.sound(),
            decreases self.offered.len(),
        {
            let ghost before = self.offered.deep_view();
            let _oldest: Offered = self.offered.remove(0);
            proof {
                assert(self.offered.deep_view() =~= before.remove(0));
                assert(before.remove(0) =~= all.skip(gone + 1));
                gone = gone + 1;
            }
        }
        assert(self.offered.deep_view() =~= kept(all));
    }

    /// A manifest was made of what was copied here, or could not be.
    pub fn described(&mut self, seq: ClipSeq, made: Option<(Offered, Vec<u8>)>, now: u64) -> (out:
        Vec<Effect>)
        requires
            old(self).wf(),
        ensures
            final(self).wf(),
            final(self)@ == old(self)@.described(seq, manifest(made), now).after,
            out.deep_view() == old(self)@.described(seq, manifest(made), now).out,
    {
        let ghost first = self@;
        let ghost given = manifest(made);
        let mut out: Vec<Effect> = Vec::new();
        let format: ClipFormat = ClipFormat::Uris;
        let result: Result<Vec<u8>, ClipError> = match made {
            Some((offered, bytes)) => {
                self.keep_offered(offered);
                Ok(bytes)
            },
            None => Err(ClipError::OwnerRefused),
        };
        self.exchanged(exchange::Input::ReadDone { seq, format, result }, now, &mut out);
        assert(out.deep_view() =~= first.described(seq, given, now).out);
        out
    }

    /// Files were picked up from a drag as the cursor left this machine, and
    /// this is their manifest.
    ///
    /// Offered to every other machine exactly as a copy would be; the manifest
    /// is kept here since nothing put it on the clipboard. The sequence the
    /// offer travels under is for telling the machine the cursor arrived on
    /// that this is what it is carrying.
    pub fn drag_started(&mut self, offered: Offered, bytes: Vec<u8>, now: u64) -> (r: (
        Option<ClipSeq>,
        Vec<Effect>,
    ))
        requires
            old(self).wf(),
            old(self)@.exchange.counter < u64::MAX,
        ensures
            final(self).wf(),
            r.0 == old(self)@.announced(now),
            final(self)@ == old(self)@.dragged(offered.deep_view(), bytes@, now).after,
            r.1.deep_view() == old(self)@.dragged(offered.deep_view(), bytes@, now).out,
    {
        let ghost first = self@;
        let ghost ov = offered.deep_view();
        let ghost bv = bytes@;
        let mut out: Vec<Effect> = Vec::new();
        if !self.files_enabled {
            assert(out.deep_view() =~= seq![]);
            return (None, out);
        }
        self.keep_offered(offered);
        let mut formats: Vec<ClipFormat> = Vec::new();
        formats.push(ClipFormat::Uris);
        assert(formats.deep_view() =~= seq![FormatView::Uris]);
        let before: u64 = self.exchange.announced();
        let outputs: Vec<exchange::Output> = self.exchange.handle(
            exchange::Input::LocalChanged(formats),
            now,
        );
        let seq: Option<ClipSeq> = if self.exchange.announced() == before {
            None
        } else {
            self.exchange.local_offer()
        };
        if let Some(seq) = seq {
            assert(bytes.deep_view() =~= bytes@);
            self.synthetic.insert(seq, bytes);
            let oldest: u64 = if seq.counter > OFFERED_KEPT as u64 {
                seq.counter - OFFERED_KEPT as u64
            } else {
                0
            };
            let recent = |e: &(ClipSeq, Vec<u8>)| -> (r: bool)
                ensures
                    r == (e.deep_view().0.counter > oldest),
                { e.0.counter > oldest };
            let ghost all = self.synthetic.entries();
            let _old: Vec<(ClipSeq, Vec<u8>)> = sift(
                &mut self.synthetic.rows,
                recent,
                Ghost(newer_than(oldest as int)),
            );
            proof {
                crate::table::filtering_stays_keyed(all, newer_than(oldest as int));
            }
        }
        self.apply(outputs, &mut out);
        assert(out.deep_view() =~= first.dragged(ov, bv, now).out);
        (seq, out)
    }

    fn drop_now(&mut self, seq: ClipSeq, now: u64, out: &mut Vec<Effect>)
        requires
            old(self).wf(),
            old(self)@.next_ticket < u64::MAX,
        ensures
            final(self).wf(),
            final(self)@ == old(self)@.drop_here(seq, now).after,
            final(out).deep_view() == old(out).deep_view() + old(self)@.drop_here(seq, now).out,
    {
        let ghost sent = out.deep_view();
        if !self.files_enabled {
            assert(sent + seq![] =~= sent);
            return ;
        }
        let here: bool = match self.exchange.held_offer() {
            Some(held) => held.same(&seq),
            None => false,
        };
        if !here {
            self.pending_drop = Some(seq);
            assert(sent + seq![] =~= sent);
            return ;
        }
        self.pending_drop = None;
        let ticket: u64 = self.next_ticket;
        self.next_ticket = ticket + 1;
        assert(self.drop_tickets.deep_view() =~= self.drop_tickets@);
        if !listed(&self.drop_tickets, &ticket) {
            self.drop_tickets.push(ticket);
        }
        let format: ClipFormat = ClipFormat::Uris;
        self.exchanged(exchange::Input::Wanted { ticket, seq, format }, now, out);
    }

    /// The cursor arrived here carrying the offer `seq`: pull its files now,
    /// without waiting for a paste, and drop them.
    pub fn drop_here(&mut self, seq: ClipSeq, now: u64) -> (out: Vec<Effect>)
        requires
            old(self).wf(),
            old(self)@.next_ticket < u64::MAX,
        ensures
            final(self).wf(),
            final(self)@ == old(self)@.drop_here(seq, now).after,
            out.deep_view() == old(self)@.drop_here(seq, now).out,
    {
        let ghost first = self@;
        let mut out: Vec<Effect> = Vec::new();
        self.drop_now(seq, now, &mut out);
        assert(out.deep_view() =~= first.drop_here(seq, now).out);
        out
    }
}

/// A path, copied.
fn path_copy(path: &Vec<String>) -> (r: Vec<String>)
    ensures
        r.deep_view() == path.deep_view(),
{
    let mut r: Vec<String> = Vec::new();
    let mut i: usize = 0;
    assert(r.deep_view() =~= path.deep_view().take(0));
    while i < path.len()
        invariant
            i <= path.len(),
            r.deep_view() =~= path.deep_view().take(i as int),
        decreases path.len() - i,
    {
        let ghost before = r.deep_view();
        r.push(path[i].clone());
        assert(r.deep_view() =~= before.push(path.deep_view()[i as int]));
        i += 1;
    }
    assert(path.deep_view().take(i as int) =~= path.deep_view());
    r
}

/// Two texts with something between them.
fn joined(a: &str, b: &str, c: &str, d: &str) -> (r: String)
    ensures
        r@ == a@ + b@ + c@ + d@,
{
    let mut r: Vec<char> = chars_of(a);
    add_text(&mut r, b);
    add_text(&mut r, c);
    add_text(&mut r, d);
    text_of(&r)
}

impl Sharing {
    fn finish_pull(&mut self, id: TransferId, why: String, out: &mut Vec<Effect>)
        requires
            old(self).wf(),
        ensures
            final(self).wf(),
            final(self)@ == old(self)@.finish_pull(id, why@).after,
            final(out).deep_view() == old(out).deep_view() + old(self)@.finish_pull(id, why@).out,
    {
        let ghost first = self@;
        let ghost sent = out.deep_view();
        let mine: bool = match &self.incoming {
            Some(incoming) => incoming.offer.id.same(&id),
            None => false,
        };
        if mine {
            match self.incoming.take() {
                Some(incoming) => {
                    assert(first.incoming == Some(incoming.deep_view()));
                    if incoming.current.is_some() {
                        let path: Vec<String> = path_copy(&incoming.landing.paths[incoming.index]);
                        emit(out, Effect::Remove { path });
                    }
                    if let Some(paste) = incoming.paste {
                        emit(out, Effect::Refuse { paste, why });
                    }
                },
                None => {},
            }
        }
        assert(out.deep_view() =~= sent + first.finish_pull(id, why@).out);
    }

    fn fail_pull(&mut self, id: TransferId, why: String, out: &mut Vec<Effect>)
        requires
            old(self).wf(),
        ensures
            final(self).wf(),
            final(self)@ == old(self)@.fail_pull(id, why@).after,
            final(out).deep_view() == old(out).deep_view() + old(self)@.fail_pull(id, why@).out,
    {
        self.finish_pull(id, why, out);
        let _none: Vec<transfer::Output> = self.transfer.handle(transfer::Input::Drop(id));
    }

    fn position_offered(&self, id: TransferId) -> (r: Option<usize>)
        ensures
            match r {
                Some(i) => i < self.offered.len() && find_offered(self@.offered, id) == Some(
                    self.offered@[i as int].deep_view(),
                ),
                None => find_offered(self@.offered, id) is None,
            },
    {
        let ghost all = self@.offered;
        let mut i: usize = 0;
        assert(all.skip(0) =~= all);
        while i < self.offered.len()
            invariant
                i <= self.offered.len(),
                all == self.offered.deep_view(),
                find_offered(all, id) == find_offered(all.skip(i as int), id),
            decreases self.offered.len() - i,
        {
            proof {
                assert(all.skip(i as int)[0] == all[i as int]);
                assert(all.skip(i as int).skip(1) =~= all.skip(i + 1));
            }
            if self.offered[i].offer.id.same(&id) {
                return Some(i);
            }
            i += 1;
        }
        None
    }

    fn piece_of(&self, to: DeviceId, id: TransferId, index: u32, offset: u64) -> (r: Effect)
        ensures
            r.deep_view() == self@.piece_of(to, id, index, offset),
    {
        let at: usize = match self.position_offered(id) {
            Some(at) => at,
            None => {
                let reason: String = "those files are no longer on offer".to_owned();
                return Effect::Send { to, msg: Bulk::FileAbort { id, reason } };
            },
        };
        let offered: &Offered = &self.offered[at];
        let i: usize = index as usize;
        assert(offered.offer.files.deep_view().len() == offered.offer.files@.len());
        if i >= offered.offer.files.len() || i >= offered.places.len() {
            let reason: String = "no such file in that copy".to_owned();
            return Effect::Send { to, msg: Bulk::FileAbort { id, reason } };
        }
        assert(offered.offer.files.deep_view()[i as int] == offered.offer.files@[i as int].deep_view());
        if offered.offer.files[i].is_dir {
            let reason: String = "that entry is a folder".to_owned();
            return Effect::Send { to, msg: Bulk::FileAbort { id, reason } };
        }
        Effect::ReadPiece { to, id, index, offset, place: offered.places[i] }
    }

    fn piece_arrived(
        &mut self,
        id: TransferId,
        index: u32,
        offset: u64,
        data: Vec<u8>,
        last: bool,
        out: &mut Vec<Effect>,
    )
        requires
            old(self).wf(),
        ensures
            final(self).wf(),
            final(self)@ == old(self)@.piece_arrived(id, index, offset, data@, last).after,
            final(out).deep_view() == old(out).deep_view() + old(self)@.piece_arrived(
                id,
                index,
                offset,
                data@,
                last,
            ).out,
    {
        let ghost first = self@;
        let ghost sent = out.deep_view();
        let ghost dv = data@;
        match self.incoming.take() {
            Some(incoming) => {
                let mut incoming: Incoming = incoming;
                let ghost iv = incoming.deep_view();
                assert(first.incoming == Some(iv));
                let next: Option<u64> = match &incoming.current {
                    Some(arriving) => Some(arriving.written()),
                    None => None,
                };
                let idle: bool = match incoming.doing {
                    Doing::Nothing => true,
                    _ => false,
                };
                let ours: bool = incoming.offer.id.same(&id) && incoming.index == index as usize
                    && idle;
                match next {
                    Some(written) => if ours {
                        if offset != written || data.len() as u64 > u64::MAX - offset {
                            self.incoming = Some(incoming);
                            assert(self@ =~= first);
                            let why: String =
                                "could not write the arriving file: a piece arrived out of order".to_owned();
                            self.fail_pull(id, why, out);
                            assert(out.deep_view() =~= sent + first.piece_arrived(
                                id,
                                index,
                                offset,
                                dv,
                                last,
                            ).out);
                            return ;
                        }
                        incoming.doing = Doing::Writing { len: data.len(), last };
                        let ghost nv = incoming.deep_view();
                        self.incoming = Some(incoming);
                        proof {
                            assert(nv =~= (IncomingView {
                                doing: Doing::Writing { len: dv.len() as usize, last },
                                ..iv
                            }));
                            assert(self@ =~= (SharingView { incoming: Some(nv), ..first }));
                        }
                        emit(out, Effect::Write { data });
                        return ;
                    },
                    None => {},
                }
                self.incoming = Some(incoming);
                assert(self@ =~= first);
            },
            None => {},
        }
        assert(out.deep_view() =~= sent + first.piece_arrived(id, index, offset, dv, last).out);
    }

    fn settle_one(&mut self, output: transfer::Output, out: &mut Vec<Effect>)
        requires
            old(self).wf(),
        ensures
            final(self).wf(),
            final(self)@ == old(self)@.settle_one(output.deep_view()).after,
            final(out).deep_view() == old(out).deep_view() + old(self)@.settle_one(
                output.deep_view(),
            ).out,
    {
        let ghost first = self@;
        let ghost given = output.deep_view();
        let ghost sent = out.deep_view();
        match output {
            transfer::Output::Send { to, msg } => emit(out, Effect::Send { to, msg }),
            transfer::Output::ReadFile { to, id, index, offset } => {
                let e: Effect = self.piece_of(to, id, index, offset);
                emit(out, e);
            },
            transfer::Output::Chunk { id, index, offset, data, last } => {
                self.piece_arrived(id, index, offset, data, last, out);
            },
            transfer::Output::Failed(id) => {
                let why: String = "the machine holding the files went away".to_owned();
                self.finish_pull(id, why, out);
            },
        }
        assert(out.deep_view() =~= sent + first.settle_one(given).out);
    }

    fn settle(&mut self, outputs: Vec<transfer::Output>, out: &mut Vec<Effect>)
        requires
            old(self).wf(),
        ensures
            final(self).wf(),
            final(self)@ == old(self)@.settle(outputs.deep_view()).after,
            final(out).deep_view() == old(out).deep_view() + old(self)@.settle(
                outputs.deep_view(),
            ).out,
    {
        let ghost first = self@;
        let ghost all = outputs.deep_view();
        let ghost sent = out.deep_view();
        let ghost given = outputs@;
        let mut left: Vec<transfer::Output> = reversed(outputs);
        let ghost mut done: int = 0;
        proof {
            assert(left@ =~= given.skip(0).reverse());
            assert(all.take(0) =~= seq![]);
            assert(sent + first.settle(all.take(0)).out =~= sent);
        }
        while left.len() > 0
            invariant
                self.wf(),
                0 <= done <= given.len(),
                all.len() == given.len(),
                forall|i: int| 0 <= i < all.len() ==> #[trigger] all[i] == given[i].deep_view(),
                left@ == given.skip(done).reverse(),
                self@ == first.settle(all.take(done)).after,
                out.deep_view() == sent + first.settle(all.take(done)).out,
            decreases left.len(),
        {
            let ghost before = left@;
            match left.pop() {
                Some(output) => {
                    proof {
                        assert(before.last() == given[done]);
                        assert(left@ =~= given.skip(done + 1).reverse());
                        assert(output.deep_view() == all[done]);
                        assert(all.take(done + 1).drop_last() =~= all.take(done));
                        assert(all.take(done + 1).last() == all[done]);
                    }
                    self.settle_one(output, out);
                    proof {
                        assert(out.deep_view() =~= sent + first.settle(all.take(done + 1)).out);
                        done = done + 1;
                    }
                },
                None => {},
            }
        }
        proof {
            assert(given.skip(done).reverse().len() == 0);
            assert(all.take(done) =~= all);
        }
    }

    fn transferred(&mut self, input: transfer::Input, out: &mut Vec<Effect>)
        requires
            old(self).wf(),
        ensures
            final(self).wf(),
            final(self)@ == old(self)@.transferred(input.deep_view()).after,
            final(out).deep_view() == old(out).deep_view() + old(self)@.transferred(
                input.deep_view(),
            ).out,
    {
        let outputs: Vec<transfer::Output> = self.transfer.handle(input);
        self.settle(outputs, out);
    }

    fn ask(&mut self, out: &mut Vec<Effect>)
        requires
            old(self).wf(),
            old(self)@.incoming is Some,
            old(self)@.incoming->0.current is Some,
        ensures
            final(self).wf(),
            final(self)@ == old(self)@.ask().after,
            final(out).deep_view() == old(out).deep_view() + old(self)@.ask().out,
    {
        let ghost sent = out.deep_view();
        let wanted: Option<transfer::Input> = match &self.incoming {
            Some(incoming) => match &incoming.current {
                Some(arriving) => Some(
                    transfer::Input::Pull {
                        id: incoming.offer.id,
                        index: incoming.index as u32,
                        offset: arriving.written(),
                    },
                ),
                None => None,
            },
            None => None,
        };
        if let Some(input) = wanted {
            self.transferred(input, out);
        }
    }

    fn advance(&mut self, out: &mut Vec<Effect>)
        requires
            old(self).wf(),
            old(self)@.incoming is Some,
            old(self)@.incoming->0.current is None,
        ensures
            final(self).wf(),
            final(self)@ == old(self)@.advance().after,
            final(out).deep_view() == old(out).deep_view() + old(self)@.advance().out,
    {
        let ghost first = self@;
        let ghost sent = out.deep_view();
        match self.incoming.take() {
            Some(incoming) => {
                let mut incoming: Incoming = incoming;
                let ghost iv = incoming.deep_view();
                assert(first.incoming == Some(iv));
                assert(incoming.offer.files.deep_view().len() == incoming.offer.files@.len());
                assert(incoming.landing.paths.deep_view().len() == incoming.landing.paths@.len());
                if incoming.index >= incoming.offer.files.len() {
                    emit(
                        out,
                        Effect::Landed {
                            paste: incoming.paste,
                            top_level: incoming.landing.top_level,
                        },
                    );
                } else {
                    let path: Vec<String> = path_copy(&incoming.landing.paths[incoming.index]);
                    assert(incoming.offer.files.deep_view()[incoming.index as int]
                        == incoming.offer.files@[incoming.index as int].deep_view());
                    if incoming.offer.files[incoming.index].is_dir {
                        incoming.doing = Doing::MakingFolder;
                        emit(out, Effect::MakeFolder { path });
                    } else {
                        incoming.doing = Doing::MakingFile;
                        emit(out, Effect::MakeFile { path });
                    }
                    let ghost nv = incoming.deep_view();
                    self.incoming = Some(incoming);
                    proof {
                        assert(nv =~= (IncomingView { doing: nv.doing, ..iv }));
                        assert(self@ =~= (SharingView { incoming: Some(nv), ..first }));
                    }
                }
            },
            None => {},
        }
        assert(out.deep_view() =~= sent + first.advance().out);
        assert(self@ =~= first.advance().after);
    }

    fn next_entry(&mut self, out: &mut Vec<Effect>)
        requires
            old(self).wf(),
            old(self)@.incoming is Some,
            old(self)@.incoming->0.doing != Doing::Nothing,
        ensures
            final(self).wf(),
            final(self)@ == old(self)@.next_entry().after,
            final(out).deep_view() == old(out).deep_view() + old(self)@.next_entry().out,
    {
        let ghost first = self@;
        match self.incoming.take() {
            Some(incoming) => {
                let mut incoming: Incoming = incoming;
                let ghost iv = incoming.deep_view();
                assert(first.incoming == Some(iv));
                assert(incoming.offer.files.deep_view().len() == incoming.offer.files@.len());
                incoming.index = incoming.index + 1;
                incoming.current = None;
                incoming.doing = Doing::Nothing;
                let ghost nv = incoming.deep_view();
                self.incoming = Some(incoming);
                proof {
                    assert(nv =~= (IncomingView {
                        index: iv.index + 1,
                        current: None,
                        doing: Doing::Nothing,
                        ..iv
                    }));
                    assert(self@ =~= (SharingView { incoming: Some(nv), ..first }));
                }
            },
            None => {},
        }
        self.advance(out);
    }

    /// Change what is known of the file being written.
    fn set_progress(&mut self, current: Option<Arriving>, doing: Doing)
        requires
            old(self).wf(),
            old(self)@.incoming is Some,
            old(self)@.incoming->0.index < old(self)@.incoming->0.offer.files.len(),
            !(doing is Writing),
        ensures
            final(self).wf(),
            final(self)@ == (SharingView {
                incoming: Some(
                    IncomingView {
                        current: match current {
                            Some(arriving) => Some(arriving@),
                            None => None,
                        },
                        doing,
                        ..old(self)@.incoming->0
                    },
                ),
                ..old(self)@
            }),
    {
        let ghost first = self@;
        match self.incoming.take() {
            Some(incoming) => {
                let mut incoming: Incoming = incoming;
                let ghost iv = incoming.deep_view();
                assert(first.incoming == Some(iv));
                incoming.current = current;
                incoming.doing = doing;
                let ghost nv = incoming.deep_view();
                self.incoming = Some(incoming);
                proof {
                    assert(nv =~= (IncomingView { current: nv.current, doing, ..iv }));
                    assert(self@ =~= (SharingView { incoming: Some(nv), ..first }));
                }
            },
            None => {},
        }
    }

    /// A piece has been written.
    fn wrote(&mut self, id: TransferId, expected: u64, len: usize, last: bool, out: &mut Vec<Effect>)
        requires
            old(self).wf(),
            old(self)@.incoming is Some,
            old(self)@.incoming->0.doing == (Doing::Writing { len, last }),
            old(self)@.incoming->0.offer.id == id,
            expected == old(self)@.incoming->0.offer.files[old(self)@.incoming->0.index].bytes,
        ensures
            final(self).wf(),
            final(self)@ == old(self)@.disk_done().after,
            final(out).deep_view() == old(out).deep_view() + old(self)@.disk_done().out,
    {
        let ghost first = self@;
        let ghost sent = out.deep_view();
        let mut arriving: Arriving = match self.take_current() {
            Some(arriving) => arriving,
            None => {
                return ;
            },
        };
        let before: u64 = arriving.written();
        let _in_order: bool = arriving.append(before, len);
        let written: u64 = arriving.written();
        if last && written == expected {
            let path: Vec<String> = self.path_begun();
            self.set_progress(None, Doing::Finishing);
            emit(out, Effect::Finish { path });
            assert(out.deep_view() =~= sent + first.disk_done().out);
            assert(self@ =~= first.disk_done().after);
            return ;
        }
        self.set_progress(Some(arriving), Doing::Nothing);
        if written > expected {
            let why: String = "a file arrived larger than it was said to be".to_owned();
            self.fail_pull(id, why, out);
        } else if !last {
            self.ask(out);
        } else {
            let why: String = "a file arrived shorter than it was said to be".to_owned();
            self.fail_pull(id, why, out);
        }
    }

    /// The file being written, taken out to be changed.
    fn take_current(&mut self) -> (r: Option<Arriving>)
        requires
            old(self).wf(),
            old(self)@.incoming is Some,
            old(self)@.incoming->0.doing is Writing,
        ensures
            final(self).wf(),
            match r {
                Some(arriving) => old(self)@.incoming->0.current == Some(arriving@),
                None => false,
            },
            final(self)@ == (SharingView {
                incoming: Some(
                    IncomingView {
                        current: None,
                        doing: Doing::Nothing,
                        ..old(self)@.incoming->0
                    },
                ),
                ..old(self)@
            }),
    {
        let ghost first = self@;
        match self.incoming.take() {
            Some(incoming) => {
                let mut incoming: Incoming = incoming;
                let ghost iv = incoming.deep_view();
                assert(first.incoming == Some(iv));
                let current: Option<Arriving> = incoming.current.take();
                incoming.doing = Doing::Nothing;
                let ghost nv = incoming.deep_view();
                self.incoming = Some(incoming);
                proof {
                    assert(nv =~= (IncomingView { current: None, doing: Doing::Nothing, ..iv }));
                    assert(self@ =~= (SharingView { incoming: Some(nv), ..first }));
                }
                current
            },
            None => None,
        }
    }

    /// The disk did as it was asked.
    pub fn disk_done(&mut self) -> (out: Vec<Effect>)
        requires
            old(self).wf(),
        ensures
            final(self).wf(),
            final(self)@ == old(self)@.disk_done().after,
            out.deep_view() == old(self)@.disk_done().out,
    {
        let ghost first = self@;
        let mut out: Vec<Effect> = Vec::new();
        assert(out.deep_view() =~= seq![]);
        let (id, expected, doing): (TransferId, u64, Doing) = match &self.incoming {
            Some(incoming) => {
                assert(first.incoming == Some(incoming.deep_view()));
                assert(incoming.offer.files.deep_view().len() == incoming.offer.files@.len());
                match incoming.doing {
                    Doing::Nothing => {
                        return out;
                    },
                    _ => {},
                }
                assert(incoming.offer.files.deep_view()[incoming.index as int]
                    == incoming.offer.files@[incoming.index as int].deep_view());
                (incoming.offer.id, incoming.offer.files[incoming.index].bytes, incoming.doing)
            },
            None => {
                return out;
            },
        };
        match doing {
            Doing::Nothing => {},
            Doing::MakingFolder => self.next_entry(&mut out),
            Doing::FinishingEmpty => self.next_entry(&mut out),
            Doing::Finishing => self.next_entry(&mut out),
            Doing::MakingFile => {
                if expected == 0 {
                    let path: Vec<String> = self.path_begun();
                    self.set_doing(Doing::FinishingEmpty);
                    emit(&mut out, Effect::Finish { path });
                } else {
                    self.set_progress(Some(Arriving::create()), Doing::Nothing);
                    self.ask(&mut out);
                }
            },
            Doing::Writing { len, last } => self.wrote(id, expected, len, last, &mut out),
        }
        assert(out.deep_view() =~= first.disk_done().out);
        out
    }

    /// Where the entry being worked on goes.
    fn path_begun(&self) -> (path: Vec<String>)
        requires
            self.wf(),
            self@.incoming is Some,
            self@.incoming->0.index < self@.incoming->0.offer.files.len(),
        ensures
            path.deep_view() == self@.incoming->0.landing.paths[self@.incoming->0.index],
    {
        match &self.incoming {
            Some(incoming) => {
                assert(self@.incoming == Some(incoming.deep_view()));
                assert(incoming.landing.paths.deep_view().len() == incoming.landing.paths@.len());
                assert(incoming.landing.paths.deep_view()[incoming.index as int]
                    == incoming.landing.paths@[incoming.index as int].deep_view());
                path_copy(&incoming.landing.paths[incoming.index])
            },
            None => Vec::new(),
        }
    }

    fn set_doing(&mut self, doing: Doing)
        requires
            old(self).wf(),
            old(self)@.incoming is Some,
            old(self)@.incoming->0.index < old(self)@.incoming->0.offer.files.len(),
            !(doing is Writing),
        ensures
            final(self).wf(),
            final(self)@ == (SharingView {
                incoming: Some(IncomingView { doing, ..old(self)@.incoming->0 }),
                ..old(self)@
            }),
    {
        let ghost first = self@;
        match self.incoming.take() {
            Some(incoming) => {
                let mut incoming: Incoming = incoming;
                let ghost iv = incoming.deep_view();
                assert(first.incoming == Some(iv));
                incoming.doing = doing;
                let ghost nv = incoming.deep_view();
                self.incoming = Some(incoming);
                proof {
                    assert(nv =~= (IncomingView { doing, ..iv }));
                    assert(self@ =~= (SharingView { incoming: Some(nv), ..first }));
                }
            },
            None => {},
        }
    }

    /// The disk would not. `shown` is the path as a person would read it.
    pub fn disk_failed(&mut self, shown: &str, error: &str) -> (out: Vec<Effect>)
        requires
            old(self).wf(),
        ensures
            final(self).wf(),
            final(self)@ == old(self)@.disk_failed(shown@, error@).after,
            out.deep_view() == old(self)@.disk_failed(shown@, error@).out,
    {
        let ghost first = self@;
        let mut out: Vec<Effect> = Vec::new();
        assert(out.deep_view() =~= seq![]);
        let (id, doing): (TransferId, Doing) = match &self.incoming {
            Some(incoming) => {
                assert(first.incoming == Some(incoming.deep_view()));
                (incoming.offer.id, incoming.doing)
            },
            None => {
                return out;
            },
        };
        let why: String = match doing {
            Doing::Nothing => {
                return out;
            },
            Doing::MakingFolder => joined("could not create ", shown, ": ", error),
            Doing::MakingFile => joined("could not create ", shown, ": ", error),
            Doing::FinishingEmpty => joined("could not write ", shown, ": ", error),
            Doing::Writing { len, last } => joined2("could not write the arriving file: ", error),
            Doing::Finishing => joined2("could not finish writing a file: ", error),
        };
        self.fail_pull(id, why, &mut out);
        assert(out.deep_view() =~= first.disk_failed(shown@, error@).out);
        out
    }

    fn refuse(&self, paste: Option<u64>, why: String, out: &mut Vec<Effect>)
        ensures
            final(out).deep_view() == old(out).deep_view() + self@.refuse(paste, why@).out,
    {
        let ghost sent = out.deep_view();
        let ghost text = why@;
        if let Some(paste) = paste {
            emit(out, Effect::Refuse { paste, why });
        }
        assert(out.deep_view() =~= sent + self@.refuse(paste, text).out);
    }

    /// The top-level names of an offer for which places are to be found before
    /// its pull begins: none where it will not begin.
    pub fn names_to_place(&self, offer: &FileOffer) -> (r: Vec<String>)
        requires
            self.wf(),
        ensures
            r.deep_view() == if self@.files_enabled && self@.incoming is None && landing_plan(
                offer.deep_view(),
                seq![],
                self@.files_max,
            ) is Ok {
                first_names(offer.deep_view().files)
            } else {
                seq![]
            },
    {
        if !self.files_enabled || self.incoming.is_some() {
            let none: Vec<String> = Vec::new();
            assert(none.deep_view() =~= seq![]);
            return none;
        }
        names_to_place(offer, self.files_max)
    }

    /// Files from elsewhere are wanted here -- pasted, or dropped: decide where
    /// they go, given the names `present` in the directory they land in, and
    /// begin the first.
    pub fn begin_pull(&mut self, offer: FileOffer, paste: Option<u64>, present: &Vec<String>) -> (out:
        Vec<Effect>)
        requires
            old(self).wf(),
        ensures
            final(self).wf(),
            final(self)@ == old(self)@.begin_pull(
                offer.deep_view(),
                paste,
                present.deep_view(),
            ).after,
            out.deep_view() == old(self)@.begin_pull(
                offer.deep_view(),
                paste,
                present.deep_view(),
            ).out,
    {
        let ghost first = self@;
        let ghost ov = offer.deep_view();
        let ghost pv = present.deep_view();
        let mut out: Vec<Effect> = Vec::new();
        assert(out.deep_view() =~= seq![]);
        if !self.files_enabled {
            self.refuse(paste, "file transfer is turned off here".to_owned(), &mut out);
            assert(out.deep_view() =~= first.begin_pull(ov, paste, pv).out);
            return out;
        }
        if self.incoming.is_some() {
            self.refuse(
                paste,
                "another set of files is still arriving; try again when it has".to_owned(),
                &mut out,
            );
            assert(out.deep_view() =~= first.begin_pull(ov, paste, pv).out);
            return out;
        }
        match plan_landing(&offer, present, self.files_max) {
            Err(why) => {
                let message: String = why.message();
                self.refuse(paste, joined2("refusing the files: ", message.as_str()), &mut out);
            },
            Ok(landing) => {
                let incoming: Incoming = Incoming {
                    offer,
                    landing,
                    index: 0,
                    current: None,
                    doing: Doing::Nothing,
                    paste,
                };
                let ghost iv = incoming.deep_view();
                self.incoming = Some(incoming);
                proof {
                    assert(iv.landing.paths.len() == iv.offer.files.len());
                    assert(self@ =~= (SharingView { incoming: Some(iv), ..first }));
                }
                self.advance(&mut out);
            },
        }
        assert(out.deep_view() =~= first.begin_pull(ov, paste, pv).out);
        out
    }

    pub fn peer_up(&mut self, peer: DeviceId, now: u64) -> (out: Vec<Effect>)
        requires
            old(self).wf(),
        ensures
            final(self).wf(),
            final(self)@ == old(self)@.peer_up(peer, now).after,
            out.deep_view() == old(self)@.peer_up(peer, now).out,
    {
        let ghost first = self@;
        let mut out: Vec<Effect> = Vec::new();
        match self.role {
            Role::Client => self.transfer.set_hub(Some(peer)),
            Role::Server => {},
        }
        self.transferred(transfer::Input::PeerUp(peer), &mut out);
        self.exchanged(exchange::Input::PeerUp(peer), now, &mut out);
        assert(out.deep_view() =~= first.peer_up(peer, now).out);
        out
    }

    pub fn peer_gone(&mut self, peer: DeviceId, now: u64) -> (out: Vec<Effect>)
        requires
            old(self).wf(),
        ensures
            final(self).wf(),
            final(self)@ == old(self)@.peer_gone(peer, now).after,
            out.deep_view() == old(self)@.peer_gone(peer, now).out,
    {
        let ghost first = self@;
        let mut out: Vec<Effect> = Vec::new();
        self.transferred(transfer::Input::PeerGone(peer), &mut out);
        self.exchanged(exchange::Input::PeerGone(peer), now, &mut out);
        assert(out.deep_view() =~= first.peer_gone(peer, now).out);
        out
    }

    pub fn peer_said(&mut self, from: DeviceId, msg: Bulk, now: u64) -> (out: Vec<Effect>)
        requires
            old(self).wf(),
            old(self)@.next_ticket < u64::MAX,
        ensures
            final(self).wf(),
            final(self)@ == old(self)@.peer_said(from, msg.deep_view(), now).after,
            out.deep_view() == old(self)@.peer_said(from, msg.deep_view(), now).out,
    {
        let ghost first = self@;
        let ghost given = msg.deep_view();
        let mut out: Vec<Effect> = Vec::new();
        let files: bool = match &msg {
            Bulk::FileOffer(_) => true,
            Bulk::FileRequest { .. } => true,
            Bulk::FileChunk { .. } => true,
            Bulk::FileDone { .. } => true,
            Bulk::FileAbort { .. } => true,
            _ => false,
        };
        if files {
            self.transferred(transfer::Input::FromPeer { from, msg }, &mut out);
        } else {
            self.exchanged(exchange::Input::FromPeer { from, msg }, now, &mut out);
            proof {
                first.exchanging_keeps_tickets(
                    exchange::InputView::FromPeer { from, msg: given },
                    now,
                );
            }
            if let Some(seq) = self.pending_drop {
                let here: bool = match self.exchange.held_offer() {
                    Some(held) => held.same(&seq),
                    None => false,
                };
                if here {
                    self.drop_now(seq, now, &mut out);
                }
            }
        }
        assert(out.deep_view() =~= first.peer_said(from, given, now).out);
        out
    }
}

fn joined2(a: &str, b: &str) -> (r: String)
    ensures
        r@ == a@ + b@,
{
    let mut r: Vec<char> = chars_of(a);
    add_text(&mut r, b);
    text_of(&r)
}

impl SharingView {
    proof fn applying_keeps_tickets(self, outputs: Seq<exchange::OutputView>)
        ensures
            self.apply(outputs).after.next_ticket == self.next_ticket,
        decreases outputs.len(),
    {
        if outputs.len() > 0 {
            self.applying_keeps_tickets(outputs.drop_last());
        }
    }

    proof fn exchanging_keeps_tickets(self, input: exchange::InputView, now: u64)
        ensures
            self.exchanged(input, now).after.next_ticket == self.next_ticket,
    {
        let step = self.exchange.step(input, now);
        SharingView { exchange: step.after, ..self }.applying_keeps_tickets(step.out);
    }
}

/// The message that answers a request for a piece: what was read, or that it
/// could not be.
pub fn piece_message(
    id: TransferId,
    index: u32,
    offset: u64,
    read: Option<(Vec<u8>, bool)>,
) -> (r: Bulk)
    ensures
        r.deep_view() == match read {
            Some(piece) => BulkView::FileChunk {
                id,
                index,
                offset,
                data: piece.0@,
                last: piece.1,
            },
            None => BulkView::FileAbort { id, reason: "the file could not be read"@ },
        },
{
    match read {
        Some((data, last)) => Bulk::FileChunk { id, index, offset, data, last },
        None => Bulk::FileAbort { id, reason: "the file could not be read".to_owned() },
    }
}

} // verus!
