//! Carrying the clipboard between machines.
//!
//! Every machine watches its own clipboard. A copy produces an *offer* -- a
//! description of what is available, nothing more -- which travels to the
//! others, and each of them puts that offer on its own clipboard. Only when
//! something pastes are the contents fetched, one chunk at a time, from
//! wherever they actually are. A screenshot that is never pasted costs one
//! small message.
//!
//! The server is the hub. A client speaks only to the server; an offer from
//! one client reaches the others by way of the server, which holds the offer
//! itself and fetches on their behalf when they paste. That keeps a client
//! from ever needing to know how many other machines there are.
//!
//! This is a state machine: inputs go in, outputs come out, and nothing here
//! touches a socket or a clipboard. The same code runs on both ends -- a
//! client is simply a hub with one peer.

use vstd::prelude::*;

use crate::layout::DeviceId;
use crate::order::Alike;
use crate::proto::{
    copy_of, Bulk, BulkView, ClipEntry, ClipError, ClipFormat, ClipKey, ClipOffer, ClipSeq,
    EntryView, FormatView, KeyView, OfferView, MAX_CHUNK_DATA,
};
use crate::table::{
    ascending, erased, in_order, keyed, listed, sift, stored, value_of, with_item, without_item,
    OrderedSet, Table,
};
use crate::text::{chars_of, is_word, lower, lowered, trim, trimmed};

verus! {

/// How long after placing an offer a change notice is taken to be that very
/// offer coming back round, rather than somebody copying something new, in
/// nanoseconds.
///
/// The platform backends already suppress their own notices where they can;
/// this catches the ones they cannot, and is short enough that a real copy a
/// moment later still gets through.
pub const ECHO_WINDOW: u64 = 750_000_000;

/// The format a name in the configuration stands for.
pub open spec fn format_named(name: Seq<char>) -> Option<FormatView> {
    let word = lower(trim(name));
    if word == "text"@ || word == "plain"@ {
        Some(FormatView::Text)
    } else if word == "html"@ {
        Some(FormatView::Html)
    } else if word == "image"@ || word == "png"@ || word == "images"@ {
        Some(FormatView::Png)
    } else if word == "files"@ || word == "uris"@ || word == "file"@ {
        Some(FormatView::Uris)
    } else {
        None
    }
}

/// The formats that names stand for, each once, in the order they are first
/// named.
pub open spec fn formats_named(names: Seq<Seq<char>>) -> Seq<FormatView>
    decreases names.len(),
{
    if names.len() == 0 {
        seq![]
    } else {
        let earlier = formats_named(names.drop_last());
        match format_named(names.last()) {
            Some(format) => if earlier.contains(format) {
                earlier
            } else {
                earlier.push(format)
            },
            None => earlier,
        }
    }
}

fn format_called(name: &str) -> (r: Option<ClipFormat>)
    ensures
        r.deep_view() == format_named(name@),
{
    let word: Vec<char> = lowered(&trimmed(&chars_of(name)));
    if is_word(&word, "text") || is_word(&word, "plain") {
        Some(ClipFormat::Text)
    } else if is_word(&word, "html") {
        Some(ClipFormat::Html)
    } else if is_word(&word, "image") || is_word(&word, "png") || is_word(&word, "images") {
        Some(ClipFormat::Png)
    } else if is_word(&word, "files") || is_word(&word, "uris") || is_word(&word, "file") {
        Some(ClipFormat::Uris)
    } else {
        None
    }
}

/// Which spelling of a format the configuration uses.
///
/// Anything unrecognised is ignored rather than refused: a format this build
/// cannot carry is not a reason to carry nothing.
pub fn formats_from_names(names: &Vec<String>) -> (r: Vec<ClipFormat>)
    ensures
        r.deep_view() == formats_named(names.deep_view()),
{
    let ghost every = names.deep_view();
    let mut r: Vec<ClipFormat> = Vec::new();
    let mut i: usize = 0;
    proof {
        assert(every.take(0) =~= seq![]);
        assert(r.deep_view() =~= seq![]);
    }
    while i < names.len()
        invariant
            i <= names.len(),
            every == names.deep_view(),
            r.deep_view() == formats_named(every.take(i as int)),
        decreases names.len() - i,
    {
        let ghost before = r.deep_view();
        proof {
            assert(every.take(i + 1).drop_last() =~= every.take(i as int));
            assert(every.take(i + 1).last() == names@[i as int]@);
        }
        if let Some(format) = format_called(names[i].as_str()) {
            if !listed(&r, &format) {
                let ghost fv = format.deep_view();
                r.push(format);
                assert(r.deep_view() =~= before.push(fv));
            }
        }
        i += 1;
    }
    assert(every.take(i as int) =~= every);
    r
}

/// Things that happen to the exchange.
#[derive(Debug, PartialEq)]
pub enum Input {
    /// A machine's link is up and can carry clipboard traffic.
    PeerUp(DeviceId),
    PeerGone(DeviceId),
    /// Something was copied on this machine, and these formats are available.
    LocalChanged(Vec<ClipFormat>),
    /// A clipboard message arrived from a machine.
    FromPeer { from: DeviceId, msg: Bulk },
    /// Something on this machine is pasting an offer we hold from elsewhere.
    ///
    /// `ticket` is the caller's; it comes back on [`Output::Deliver`].
    Wanted { ticket: u64, seq: ClipSeq, format: ClipFormat },
    /// The local clipboard has been read, in answer to [`Output::ReadLocal`].
    ReadDone { seq: ClipSeq, format: ClipFormat, result: Result<Vec<u8>, ClipError> },
}

pub enum InputView {
    PeerUp(DeviceId),
    PeerGone(DeviceId),
    LocalChanged(Seq<FormatView>),
    FromPeer { from: DeviceId, msg: BulkView },
    Wanted { ticket: u64, seq: ClipSeq, format: FormatView },
    ReadDone { seq: ClipSeq, format: FormatView, result: Result<Seq<u8>, ClipError> },
}

/// What came back, with the contents as a sequence.
pub open spec fn contents(result: Result<Vec<u8>, ClipError>) -> Result<Seq<u8>, ClipError> {
    match result {
        Ok(data) => Ok(data@),
        Err(why) => Err(why),
    }
}

impl DeepView for Input {
    type V = InputView;

    open spec fn deep_view(&self) -> InputView {
        match self {
            Input::PeerUp(peer) => InputView::PeerUp(*peer),
            Input::PeerGone(peer) => InputView::PeerGone(*peer),
            Input::LocalChanged(formats) => InputView::LocalChanged(formats.deep_view()),
            Input::FromPeer { from, msg } => InputView::FromPeer {
                from: *from,
                msg: msg.deep_view(),
            },
            Input::Wanted { ticket, seq, format } => InputView::Wanted {
                ticket: *ticket,
                seq: *seq,
                format: format.deep_view(),
            },
            Input::ReadDone { seq, format, result } => InputView::ReadDone {
                seq: *seq,
                format: format.deep_view(),
                result: contents(*result),
            },
        }
    }
}

fn formats_copy(formats: &Vec<ClipFormat>) -> (r: Vec<ClipFormat>)
    ensures
        r.deep_view() == formats.deep_view(),
{
    let r: Vec<ClipFormat> = formats.clone();
    assert(r.deep_view() =~= formats.deep_view());
    r
}

fn contents_copy(result: &Result<Vec<u8>, ClipError>) -> (r: Result<Vec<u8>, ClipError>)
    ensures
        contents(r) == contents(*result),
{
    match result {
        Ok(data) => Ok(copy_of(data)),
        Err(why) => Err(*why),
    }
}

impl Clone for Input {
    fn clone(&self) -> (r: Input)
        ensures
            r.deep_view() == self.deep_view(),
    {
        match self {
            Input::PeerUp(peer) => Input::PeerUp(*peer),
            Input::PeerGone(peer) => Input::PeerGone(*peer),
            Input::LocalChanged(formats) => Input::LocalChanged(formats_copy(formats)),
            Input::FromPeer { from, msg } => Input::FromPeer { from: *from, msg: msg.clone() },
            Input::Wanted { ticket, seq, format } => Input::Wanted {
                ticket: *ticket,
                seq: *seq,
                format: format.clone(),
            },
            Input::ReadDone { seq, format, result } => Input::ReadDone {
                seq: *seq,
                format: format.clone(),
                result: contents_copy(result),
            },
        }
    }
}

/// What should be done about it.
#[derive(Debug, PartialEq)]
pub enum Output {
    Send { to: DeviceId, msg: Bulk },
    /// Put this offer on the local clipboard. Its contents are fetched through
    /// [`Input::Wanted`] when something pastes.
    OfferLocally { seq: ClipSeq, formats: Vec<ClipFormat> },
    /// Stop offering: whatever was offered can no longer be fetched.
    ReleaseLocally,
    /// Read this format of the local clipboard and answer with
    /// [`Input::ReadDone`].
    ReadLocal { seq: ClipSeq, format: ClipFormat },
    /// The answer to an [`Input::Wanted`].
    Deliver { ticket: u64, result: Result<Vec<u8>, ClipError> },
}

#[verifier::ext_equal]
pub enum OutputView {
    Send { to: DeviceId, msg: BulkView },
    OfferLocally { seq: ClipSeq, formats: Seq<FormatView> },
    ReleaseLocally,
    ReadLocal { seq: ClipSeq, format: FormatView },
    Deliver { ticket: u64, result: Result<Seq<u8>, ClipError> },
}

impl DeepView for Output {
    type V = OutputView;

    open spec fn deep_view(&self) -> OutputView {
        match self {
            Output::Send { to, msg } => OutputView::Send { to: *to, msg: msg.deep_view() },
            Output::OfferLocally { seq, formats } => OutputView::OfferLocally {
                seq: *seq,
                formats: formats.deep_view(),
            },
            Output::ReleaseLocally => OutputView::ReleaseLocally,
            Output::ReadLocal { seq, format } => OutputView::ReadLocal {
                seq: *seq,
                format: format.deep_view(),
            },
            Output::Deliver { ticket, result } => OutputView::Deliver {
                ticket: *ticket,
                result: contents(*result),
            },
        }
    }
}

impl Clone for Output {
    fn clone(&self) -> (r: Output)
        ensures
            r.deep_view() == self.deep_view(),
    {
        match self {
            Output::Send { to, msg } => Output::Send { to: *to, msg: msg.clone() },
            Output::OfferLocally { seq, formats } => Output::OfferLocally {
                seq: *seq,
                formats: formats_copy(formats),
            },
            Output::ReleaseLocally => Output::ReleaseLocally,
            Output::ReadLocal { seq, format } => Output::ReadLocal {
                seq: *seq,
                format: format.clone(),
            },
            Output::Deliver { ticket, result } => Output::Deliver {
                ticket: *ticket,
                result: contents_copy(result),
            },
        }
    }
}

/// An offer this machine currently holds on its own clipboard, from elsewhere.
#[derive(Debug)]
struct Held {
    seq: ClipSeq,
    /// The machine to fetch from. Not necessarily the one that copied: a
    /// client fetches everything through the server.
    from: DeviceId,
    formats: Vec<ClipFormat>,
    /// When the offer was put on the local clipboard, so a change notice that
    /// is merely our own offer arriving can be told from a real copy.
    placed: u64,
}

#[verifier::ext_equal]
pub struct HeldView {
    pub seq: ClipSeq,
    pub from: DeviceId,
    pub formats: Seq<FormatView>,
    pub placed: u64,
}

impl DeepView for Held {
    type V = HeldView;

    closed spec fn deep_view(&self) -> HeldView {
        HeldView {
            seq: self.seq,
            from: self.from,
            formats: self.formats.deep_view(),
            placed: self.placed,
        }
    }
}

/// What this machine's own clipboard is offering.
#[derive(Debug)]
struct Own {
    seq: ClipSeq,
    formats: Vec<ClipFormat>,
}

#[verifier::ext_equal]
pub struct OwnView {
    pub seq: ClipSeq,
    pub formats: Seq<FormatView>,
}

impl DeepView for Own {
    type V = OwnView;

    closed spec fn deep_view(&self) -> OwnView {
        OwnView { seq: self.seq, formats: self.formats.deep_view() }
    }
}

/// Contents on their way from another machine.
#[derive(Debug)]
struct Fetching {
    from: DeviceId,
    buf: Vec<u8>,
}

#[verifier::ext_equal]
pub struct FetchingView {
    pub from: DeviceId,
    pub buf: Seq<u8>,
}

impl DeepView for Fetching {
    type V = FetchingView;

    closed spec fn deep_view(&self) -> FetchingView {
        FetchingView { from: self.from, buf: self.buf@ }
    }
}

/// Who wants contents that are not here yet.
#[derive(Debug, Clone, Copy)]
pub enum Waiter {
    /// Something on this machine pasting.
    Ticket(u64),
    /// Another machine asking for a chunk.
    Relay { to: DeviceId, offset: u64 },
}

#[derive(Debug)]
struct Waiting {
    key: ClipKey,
    who: Waiter,
}

pub struct WaitingView {
    pub key: KeyView,
    pub who: Waiter,
}

impl DeepView for Waiting {
    type V = WaitingView;

    closed spec fn deep_view(&self) -> WaitingView {
        WaitingView { key: self.key.deep_view(), who: self.who }
    }
}

/// Everything the exchange keeps track of.
#[verifier::ext_equal]
pub struct ExchangeView {
    pub me: DeviceId,
    /// The machines whose links are up, ascending.
    pub peers: Seq<DeviceId>,
    /// How many copies have been announced from here.
    pub counter: u64,
    pub allowed: Seq<FormatView>,
    pub max_bytes: u64,
    pub enabled: bool,
    /// What this machine's own clipboard is offering, if anything.
    pub local: Option<OwnView>,
    /// The offer from elsewhere that this machine's clipboard currently holds.
    pub remote: Option<HeldView>,
    /// Contents that can be served straight away.
    pub cache: Seq<(KeyView, Seq<u8>)>,
    /// What the local clipboard has been asked for.
    pub reading: Seq<KeyView>,
    pub fetching: Seq<(KeyView, FetchingView)>,
    /// Who is waiting for what, in the order in which they asked.
    pub waiting: Seq<WaitingView>,
}

/// The state that follows, and what is to be done.
pub struct Step {
    pub after: ExchangeView,
    pub out: Seq<OutputView>,
}

impl ExchangeView {
    /// Nothing happens.
    pub open spec fn still(self) -> Step {
        Step { after: self, out: seq![] }
    }
}

impl Step {
    /// One thing after the other.
    pub open spec fn followed_by(self, next: Step) -> Step {
        Step { after: next.after, out: self.out + next.out }
    }
}

// --- what each input leads to ---------------------------------------------

/// A description of a copy that says which formats it can be had in.
pub open spec fn announcement(seq: ClipSeq, formats: Seq<FormatView>) -> OfferView {
    OfferView {
        seq,
        entries: formats.map_values(
            |f: FormatView| EntryView { format: f, bytes: None, hash: None },
        ),
    }
}

/// The same message to each of these machines.
pub open spec fn to_each(peers: Seq<DeviceId>, msg: BulkView) -> Seq<OutputView> {
    peers.map_values(|p: DeviceId| OutputView::Send { to: p, msg })
}

/// The one chunk that answers a request for `offset`: as much as a message
/// carries, and whether that reaches the end.
pub open spec fn chunk_at(key: KeyView, data: Seq<u8>, offset: u64) -> BulkView {
    let start: int = if offset < data.len() {
        offset as int
    } else {
        data.len() as int
    };
    let end: int = if start + MAX_CHUNK_DATA < data.len() {
        start + MAX_CHUNK_DATA
    } else {
        data.len() as int
    };
    BulkView::ClipChunk {
        seq: key.seq,
        format: key.format,
        offset: start as u64,
        data: data.subrange(start, end),
        last: end == data.len(),
    }
}

/// What a waiter is told once the contents are here.
pub open spec fn answer(w: WaitingView, data: Seq<u8>) -> OutputView {
    match w.who {
        Waiter::Ticket(ticket) => OutputView::Deliver { ticket, result: Ok(data) },
        Waiter::Relay { to, offset } => OutputView::Send {
            to,
            msg: chunk_at(w.key, data, offset),
        },
    }
}

/// What a waiter is told when the contents will not come.
pub open spec fn refusal(w: WaitingView, why: ClipError) -> OutputView {
    match w.who {
        Waiter::Ticket(ticket) => OutputView::Deliver { ticket, result: Err(why) },
        Waiter::Relay { to, offset } => OutputView::Send {
            to,
            msg: BulkView::ClipUnavailable { seq: w.key.seq, format: w.key.format, reason: why },
        },
    }
}

pub open spec fn cancelled(e: (KeyView, FetchingView)) -> OutputView {
    OutputView::Send {
        to: e.1.from,
        msg: BulkView::ClipCancel { seq: e.0.seq, format: e.0.format },
    }
}

pub open spec fn waits_for(key: KeyView) -> spec_fn(WaitingView) -> bool {
    |w: WaitingView| w.key == key
}

pub open spec fn waits_for_other(key: KeyView) -> spec_fn(WaitingView) -> bool {
    |w: WaitingView| w.key != key
}

impl ExchangeView {
    /// Whether the contents of this format of this copy are this machine's to
    /// hand out.
    pub open spec fn offers(self, key: KeyView) -> bool {
        self.local is Some && self.local->0.seq == key.seq && self.local->0.formats.contains(key.format)
    }

    /// Whether this format of this copy is held from elsewhere.
    pub open spec fn holds(self, key: KeyView) -> bool {
        self.remote is Some && self.remote->0.seq == key.seq && self.remote->0.formats.contains(
            key.format,
        )
    }

    /// What the clipboard offers now, wherever it came from.
    pub open spec fn current_offer(self) -> Option<OfferView> {
        if let Some(own) = self.local {
            Some(announcement(own.seq, own.formats))
        } else if let Some(held) = self.remote {
            Some(announcement(held.seq, held.formats))
        } else {
            None
        }
    }

    /// Contents have arrived: they are kept, and everyone waiting for them is
    /// answered.
    pub open spec fn serve(self, key: KeyView, data: Seq<u8>) -> Step {
        Step {
            after: ExchangeView {
                waiting: self.waiting.filter(waits_for_other(key)),
                cache: stored(self.cache, key, data),
                ..self
            },
            out: self.waiting.filter(waits_for(key)).map_values(
                |w: WaitingView| answer(w, data),
            ),
        }
    }

    /// Contents will not come: everyone waiting for them is told why.
    pub open spec fn fail(self, key: KeyView, why: ClipError) -> Step {
        Step {
            after: ExchangeView { waiting: self.waiting.filter(waits_for_other(key)), ..self },
            out: self.waiting.filter(waits_for(key)).map_values(
                |w: WaitingView| refusal(w, why),
            ),
        }
    }

    pub open spec fn fail_each(self, keys: Seq<KeyView>, why: ClipError) -> Step
        decreases keys.len(),
    {
        if keys.len() == 0 {
            self.still()
        } else {
            let before = self.fail_each(keys.drop_last(), why);
            before.followed_by(before.after.fail(keys.last(), why))
        }
    }

    /// The formats of a copy that someone is waiting for, each once, in order.
    pub open spec fn wanted_formats(self, seq: ClipSeq) -> Seq<FormatView> {
        in_order::<ClipFormat>(
            self.waiting.filter(|w: WaitingView| w.key.seq == seq).map_values(
                |w: WaitingView| w.key.format,
            ),
        )
    }

    /// A copy is over: nothing about it will be asked for or answered again.
    pub open spec fn forget(self, seq: ClipSeq) -> Step {
        let cleared = ExchangeView {
            cache: self.cache.filter(|e: (KeyView, Seq<u8>)| e.0.seq != seq),
            reading: self.reading.filter(|k: KeyView| k.seq != seq),
            fetching: self.fetching.filter(
                |e: (KeyView, FetchingView)| e.0.seq != seq,
            ),
            ..self
        };
        let cancels = self.fetching.filter(
            |e: (KeyView, FetchingView)| e.0.seq == seq,
        ).map_values(|e: (KeyView, FetchingView)| cancelled(e));
        let keys = self.wanted_formats(seq).map_values(|f: FormatView| KeyView { seq, format: f });
        Step { after: cleared, out: cancels }.followed_by(
            cleared.fail_each(keys, ClipError::Stale),
        )
    }

    /// The copy being offered from here is over.
    pub open spec fn forget_local(self) -> Step {
        match self.local {
            Some(own) => ExchangeView { local: None, ..self }.forget(own.seq),
            None => self.still(),
        }
    }

    /// The copy held from elsewhere is over, unless it is `except`.
    pub open spec fn forget_remote(self, except: Option<ClipSeq>) -> Step {
        match self.remote {
            Some(held) => {
                let bare = ExchangeView { remote: None, ..self };
                if except == Some(held.seq) {
                    bare.still()
                } else {
                    bare.forget(held.seq)
                }
            },
            None => self.still(),
        }
    }

    pub open spec fn start_fetch(self, from: DeviceId, key: KeyView) -> Step {
        if value_of(self.fetching, key) is Some {
            self.still()
        } else {
            Step {
                after: ExchangeView {
                    fetching: stored(
                        self.fetching,
                        key,
                        FetchingView { from, buf: Seq::empty() },
                    ),
                    ..self
                },
                out: seq![
                    OutputView::Send {
                        to: from,
                        msg: BulkView::ClipRequest { seq: key.seq, format: key.format, offset: 0 },
                    },
                ],
            }
        }
    }

    pub open spec fn wait(self, key: KeyView, who: Waiter) -> ExchangeView {
        ExchangeView { waiting: self.waiting.push(WaitingView { key, who }), ..self }
    }

    // --- the inputs, one by one ---

    /// A machine arriving gets whatever is on the clipboard now, so it does
    /// not have to wait for the next copy to join in -- unless that is where
    /// it came from.
    pub open spec fn peer_up(self, peer: DeviceId) -> Step {
        let after = ExchangeView { peers: with_item::<DeviceId>(self.peers, peer), ..self };
        if self.enabled && self.current_offer() is Some && !(self.remote is Some
            && self.remote->0.from == peer) {
            Step {
                after,
                out: seq![
                    OutputView::Send {
                        to: peer,
                        msg: BulkView::ClipOffer(self.current_offer()->0),
                    },
                ],
            }
        } else {
            after.still()
        }
    }

    /// The keys being fetched from a machine.
    pub open spec fn fetched_from(self, peer: DeviceId) -> Seq<KeyView> {
        self.fetching.filter(
            |e: (KeyView, FetchingView)| e.1.from == peer,
        ).map_values(|e: (KeyView, FetchingView)| e.0)
    }

    /// Nothing waiting on a machine that is gone can be answered any more, and
    /// a relay to it has nowhere to go.
    pub open spec fn peer_gone(self, peer: DeviceId) -> Step {
        let cut = ExchangeView {
            peers: without_item(self.peers, peer),
            fetching: self.fetching.filter(
                |e: (KeyView, FetchingView)| e.1.from != peer,
            ),
            ..self
        };
        let failed = cut.fail_each(self.fetched_from(peer), ClipError::Cancelled);
        let left = ExchangeView {
            waiting: failed.after.waiting.filter(
                |w: WaitingView| !(w.who is Relay && w.who->to == peer),
            ),
            ..failed.after
        };
        let quiet = Step { after: left, out: failed.out };
        if left.remote is Some && left.remote->0.from == peer {
            let over = quiet.followed_by(left.forget_remote(None));
            Step { after: over.after, out: over.out.push(OutputView::ReleaseLocally) }
        } else {
            quiet
        }
    }

    /// Whether a change notice is only our own offer coming back round.
    pub open spec fn is_echo(self, formats: Seq<FormatView>, now: u64) -> bool {
        self.remote is Some && now - self.remote->0.placed <= ECHO_WINDOW && forall|i: int|
            0 <= i < formats.len() ==> self.remote->0.formats.contains(#[trigger] formats[i])
    }

    /// Something was copied here. A notice with nothing usable in it says
    /// nothing about what is held, and changes nothing.
    pub open spec fn local_changed(self, available: Seq<FormatView>, now: u64) -> Step {
        let formats = available.filter(|f: FormatView| self.allowed.contains(f));
        if !self.enabled || formats.len() == 0 || self.is_echo(formats, now) {
            self.still()
        } else {
            let a = self.forget_local();
            let b = a.followed_by(a.after.forget_remote(None));
            let counter = (self.counter + 1) as u64;
            let seq = ClipSeq { device: self.me, counter };
            Step {
                after: ExchangeView { counter, local: Some(OwnView { seq, formats }), ..b.after },
                out: b.out + to_each(
                    self.peers,
                    BulkView::ClipOffer(announcement(seq, formats)),
                ),
            }
        }
    }

    /// Something was copied elsewhere: it supersedes what is on the clipboard
    /// here, exactly as a local copy would, and the hub passes it on.
    pub open spec fn offered(self, from: DeviceId, offer: OfferView, now: u64) -> Step {
        let formats = offer.entries.map_values(|e: EntryView| e.format).filter(
            |f: FormatView| self.allowed.contains(f),
        );
        if !self.enabled || formats.len() == 0 {
            self.still()
        } else {
            let a = self.forget_local();
            let b = a.followed_by(a.after.forget_remote(Some(offer.seq)));
            Step {
                after: ExchangeView {
                    remote: Some(HeldView { seq: offer.seq, from, formats, placed: now }),
                    ..b.after
                },
                out: b.out.push(OutputView::OfferLocally { seq: offer.seq, formats }) + to_each(
                    without_item(self.peers, from),
                    BulkView::ClipOffer(announcement(offer.seq, formats)),
                ),
            }
        }
    }

    /// Another machine asks for a chunk: it is served from what is here, or
    /// waits for the local clipboard to be read or for another machine to
    /// hand it over, or is told that the copy is no more.
    pub open spec fn requested(
        self,
        from: DeviceId,
        key: KeyView,
        offset: u64,
    ) -> Step {
        if let Some(data) = value_of(self.cache, key) {
            Step {
                after: self,
                out: seq![OutputView::Send { to: from, msg: chunk_at(key, data, offset) }],
            }
        } else if self.offers(key) {
            let after = self.wait(key, Waiter::Relay { to: from, offset });
            if self.reading.contains(key) {
                after.still()
            } else {
                Step {
                    after: ExchangeView { reading: self.reading.push(key), ..after },
                    out: seq![OutputView::ReadLocal { seq: key.seq, format: key.format }],
                }
            }
        } else if self.holds(key) && self.remote->0.from != from {
            self.wait(key, Waiter::Relay { to: from, offset }).start_fetch(
                self.remote->0.from,
                key,
            )
        } else {
            Step {
                after: self,
                out: seq![
                    OutputView::Send {
                        to: from,
                        msg: BulkView::ClipUnavailable {
                            seq: key.seq,
                            format: key.format,
                            reason: ClipError::Stale,
                        },
                    },
                ],
            }
        }
    }

    /// Something here pastes.
    pub open spec fn wanted(self, ticket: u64, key: KeyView) -> Step {
        if let Some(data) = value_of(self.cache, key) {
            Step { after: self, out: seq![OutputView::Deliver { ticket, result: Ok(data) }] }
        } else if self.holds(key) {
            self.wait(key, Waiter::Ticket(ticket)).start_fetch(self.remote->0.from, key)
        } else {
            Step {
                after: self,
                out: seq![OutputView::Deliver { ticket, result: Err(ClipError::Stale) }],
            }
        }
    }

    /// A fetch is given up: the other machine hears of it, and so does
    /// everyone waiting.
    pub open spec fn give_up(
        self,
        from: DeviceId,
        key: KeyView,
        why: ClipError,
    ) -> Step {
        let cut = ExchangeView { fetching: erased(self.fetching, key), ..self };
        Step {
            after: cut,
            out: seq![
                OutputView::Send {
                    to: from,
                    msg: BulkView::ClipCancel { seq: key.seq, format: key.format },
                },
            ],
        }.followed_by(cut.fail(key, why))
    }

    /// A chunk arrives. Only one that continues a fetch counts, from the
    /// machine it was asked of; one out of step, or too many, ends the fetch.
    pub open spec fn chunk_arrived(
        self,
        from: DeviceId,
        key: KeyView,
        offset: u64,
        data: Seq<u8>,
        last: bool,
    ) -> Step {
        match value_of(self.fetching, key) {
            None => self.still(),
            Some(fetch) => {
                let buf = fetch.buf + data;
                if fetch.from != from {
                    self.still()
                } else if offset != fetch.buf.len() {
                    self.give_up(from, key, ClipError::Cancelled)
                } else if buf.len() > self.max_bytes {
                    self.give_up(
                        from,
                        key,
                        ClipError::TooLarge { bytes: buf.len() as u64, limit: self.max_bytes },
                    )
                } else if !last {
                    Step {
                        after: ExchangeView {
                            fetching: stored(self.fetching, key, FetchingView { from, buf }),
                            ..self
                        },
                        out: seq![
                            OutputView::Send {
                                to: from,
                                msg: BulkView::ClipRequest {
                                    seq: key.seq,
                                    format: key.format,
                                    offset: buf.len() as u64,
                                },
                            },
                        ],
                    }
                } else {
                    ExchangeView { fetching: erased(self.fetching, key), ..self }.serve(key, buf)
                }
            },
        }
    }

    /// The local clipboard has been read, or could not be.
    pub open spec fn read_done(
        self,
        key: KeyView,
        result: Result<Seq<u8>, ClipError>,
    ) -> Step {
        let read = ExchangeView { reading: without_item(self.reading, key), ..self };
        match result {
            Ok(data) => if !(self.local is Some && self.local->0.seq == key.seq) {
                read.fail(key, ClipError::Stale)
            } else if data.len() > self.max_bytes {
                read.fail(
                    key,
                    ClipError::TooLarge { bytes: data.len() as u64, limit: self.max_bytes },
                )
            } else {
                read.serve(key, data)
            },
            Err(why) => read.fail(key, why),
        }
    }

    pub open spec fn peer_said(self, from: DeviceId, msg: BulkView, now: u64) -> Step {
        match msg {
            BulkView::ClipOffer(offer) => self.offered(from, offer, now),
            BulkView::ClipRequest { seq, format, offset } => self.requested(
                from,
                KeyView { seq, format },
                offset,
            ),
            BulkView::ClipChunk { seq, format, offset, data, last } => self.chunk_arrived(
                from,
                KeyView { seq, format },
                offset,
                data,
                last,
            ),
            BulkView::ClipUnavailable { seq, format, reason } => {
                let key = KeyView { seq, format };
                if value_of(self.fetching, key) is Some && value_of(self.fetching, key)->0.from
                    == from {
                    ExchangeView { fetching: erased(self.fetching, key), ..self }.fail(key, reason)
                } else {
                    self.still()
                }
            },
            _ => self.still(),
        }
    }

    /// What an input leads to.
    pub open spec fn step(self, input: InputView, now: u64) -> Step {
        match input {
            InputView::PeerUp(peer) => self.peer_up(peer),
            InputView::PeerGone(peer) => self.peer_gone(peer),
            InputView::LocalChanged(formats) => self.local_changed(formats, now),
            InputView::FromPeer { from, msg } => self.peer_said(from, msg, now),
            InputView::Wanted { ticket, seq, format } => self.wanted(ticket, KeyView { seq, format }),
            InputView::ReadDone { seq, format, result } => self.read_done(
                KeyView { seq, format },
                result,
            ),
        }
    }
}

// --- carrying it out ------------------------------------------------------

fn emit(out: &mut Vec<Output>, o: Output)
    ensures
        final(out).deep_view() == old(out).deep_view().push(o.deep_view()),
{
    let ghost before = out.deep_view();
    let ghost added = o.deep_view();
    out.push(o);
    assert(out.deep_view() =~= before.push(added));
}

/// A description of a copy, saying only which formats it can be had in.
fn offer(seq: ClipSeq, formats: &Vec<ClipFormat>) -> (r: ClipOffer)
    ensures
        r.deep_view() == announcement(seq, formats.deep_view()),
{
    let mut entries: Vec<ClipEntry> = Vec::new();
    let mut i: usize = 0;
    while i < formats.len()
        invariant
            i <= formats.len(),
            entries.deep_view() =~= announcement(seq, formats.deep_view().take(i as int)).entries,
        decreases formats.len() - i,
    {
        let ghost earlier = entries.deep_view();
        let entry: ClipEntry = ClipEntry {
            format: formats[i].clone(),
            bytes: None,
            hash: None,
        };
        let ghost added = entry.deep_view();
        entries.push(entry);
        proof {
            assert(entries.deep_view() =~= earlier.push(added));
            assert(added == EntryView {
                format: formats.deep_view()[i as int],
                bytes: None,
                hash: None,
            });
        }
        i += 1;
    }
    proof {
        assert(formats.deep_view().take(i as int) =~= formats.deep_view());
    }
    ClipOffer { seq, entries }
}

/// The one chunk that answers a request for `offset`.
fn chunk(key: &ClipKey, data: &Vec<u8>, offset: u64) -> (r: Bulk)
    ensures
        r.deep_view() == chunk_at(key.deep_view(), data@, offset),
{
    let start: usize = if offset < data.len() as u64 { offset as usize } else { data.len() };
    let end: usize = if data.len() - start > MAX_CHUNK_DATA {
        start + MAX_CHUNK_DATA
    } else {
        data.len()
    };
    let mut piece: Vec<u8> = Vec::new();
    let mut i: usize = start;
    while i < end
        invariant
            start <= i <= end <= data.len(),
            piece@ =~= data@.subrange(start as int, i as int),
        decreases end - i,
    {
        piece.push(data[i]);
        i += 1;
    }
    Bulk::ClipChunk {
        seq: key.seq,
        format: key.format.clone(),
        offset: start as u64,
        data: piece,
        last: end >= data.len(),
    }
}

/// The clipboard of one machine, as the others see it.
#[derive(Debug)]
pub struct Exchange {
    me: DeviceId,
    peers: OrderedSet<DeviceId>,
    counter: u64,
    allowed: Vec<ClipFormat>,
    max_bytes: u64,
    enabled: bool,
    local: Option<Own>,
    remote: Option<Held>,
    /// Our own clipboard once read, and anything fetched from elsewhere. Only
    /// the current offers' entries are kept, so this never grows past a couple
    /// of pastes' worth.
    cache: Table<ClipKey, Vec<u8>>,
    reading: Vec<ClipKey>,
    fetching: Table<ClipKey, Fetching>,
    waiting: Vec<Waiting>,
}

impl View for Exchange {
    type V = ExchangeView;

    closed spec fn view(&self) -> ExchangeView {
        ExchangeView {
            me: self.me,
            peers: self.peers.members(),
            counter: self.counter,
            allowed: self.allowed.deep_view(),
            max_bytes: self.max_bytes,
            enabled: self.enabled,
            local: self.local.deep_view(),
            remote: self.remote.deep_view(),
            cache: self.cache.entries(),
            reading: self.reading.deep_view(),
            fetching: self.fetching.entries(),
            waiting: self.waiting.deep_view(),
        }
    }
}

impl Exchange {
    /// The machines are listed in order, and nothing is kept or fetched twice.
    pub open spec fn wf(&self) -> bool {
        &&& ascending::<DeviceId>(self@.peers)
        &&& keyed(self@.cache)
        &&& keyed(self@.fetching)
    }

    pub fn new(me: DeviceId, allowed: Vec<ClipFormat>, max_bytes: u64) -> (r: Exchange)
        ensures
            r.wf(),
            r@ == (ExchangeView {
                me,
                peers: seq![],
                counter: 0,
                allowed: allowed.deep_view(),
                max_bytes,
                enabled: true,
                local: None,
                remote: None,
                cache: seq![],
                reading: seq![],
                fetching: seq![],
                waiting: seq![],
            }),
    {
        let r: Exchange = Exchange {
            me,
            peers: OrderedSet::new(),
            counter: 0,
            allowed,
            max_bytes,
            enabled: true,
            local: None,
            remote: None,
            cache: Table::new(),
            reading: Vec::new(),
            fetching: Table::new(),
            waiting: Vec::new(),
        };
        assert(r.reading.deep_view() =~= seq![]);
        assert(r.waiting.deep_view() =~= seq![]);
        r
    }

    /// Turn sharing on or off without losing track of the machines.
    pub fn set_enabled(&mut self, enabled: bool)
        requires
            old(self).wf(),
        ensures
            final(self).wf(),
            final(self)@ == (ExchangeView { enabled, ..old(self)@ }),
    {
        self.enabled = enabled;
    }

    pub fn set_allowed(&mut self, allowed: Vec<ClipFormat>)
        requires
            old(self).wf(),
        ensures
            final(self).wf(),
            final(self)@ == (ExchangeView { allowed: allowed.deep_view(), ..old(self)@ }),
    {
        self.allowed = allowed;
    }

    pub fn set_max_bytes(&mut self, max_bytes: u64)
        requires
            old(self).wf(),
        ensures
            final(self).wf(),
            final(self)@ == (ExchangeView { max_bytes, ..old(self)@ }),
    {
        self.max_bytes = max_bytes;
    }

    /// How many copies have been announced from here.
    pub fn announced(&self) -> (r: u64)
        ensures
            r == self@.counter,
    {
        self.counter
    }

    /// Whether there are numbers left for copies from here.
    pub fn has_room(&self) -> (r: bool)
        ensures
            r == (self@.counter < u64::MAX),
    {
        self.counter < u64::MAX
    }

    /// The offer this machine is currently making, if any.
    pub fn local_offer(&self) -> (r: Option<ClipSeq>)
        ensures
            r == match self@.local {
                Some(own) => Some(own.seq),
                None => None,
            },
    {
        match &self.local {
            Some(own) => Some(own.seq),
            None => None,
        }
    }

    /// The offer from elsewhere this machine currently holds, if any.
    pub fn held_offer(&self) -> (r: Option<ClipSeq>)
        ensures
            r == match self@.remote {
                Some(held) => Some(held.seq),
                None => None,
            },
    {
        match &self.remote {
            Some(held) => Some(held.seq),
            None => None,
        }
    }

    fn current_offer(&self) -> (r: Option<ClipOffer>)
        ensures
            r.deep_view() == self@.current_offer(),
    {
        if let Some(own) = &self.local {
            return Some(offer(own.seq, &own.formats));
        }
        match &self.remote {
            Some(held) => Some(offer(held.seq, &held.formats)),
            None => None,
        }
    }

    /// Contents have arrived: keep them, and answer everyone waiting.
    fn serve_waiters(&mut self, key: ClipKey, data: Vec<u8>, out: &mut Vec<Output>)
        requires
            old(self).wf(),
        ensures
            final(self).wf(),
            final(self)@ == old(self)@.serve(key.deep_view(), data@).after,
            final(out).deep_view() == old(out).deep_view() + old(self)@.serve(
                key.deep_view(),
                data@,
            ).out,
    {
        let ghost k = key.deep_view();
        let ghost first = self@;
        let ghost sent = out.deep_view();
        let elsewhere = |w: &Waiting| -> (r: bool)
            ensures
                r == waits_for_other(key.deep_view())(w.deep_view()),
            { !w.key.same(&key) };
        let ready: Vec<Waiting> = sift(&mut self.waiting, elsewhere, Ghost(waits_for_other(k)));
        let ghost asked = first.waiting.filter(waits_for(k));
        proof {
            assert((|w: WaitingView| !waits_for_other(k)(w)) =~= waits_for(k));
            assert(ready.deep_view() == asked);
        }
        let mut i: usize = 0;
        while i < ready.len()
            invariant
                i <= ready.len(),
                k == key.deep_view(),
                ready.deep_view() == asked,
                forall|j: int| 0 <= j < asked.len() ==> (#[trigger] asked[j]).key == k,
                out.deep_view() =~= sent + asked.take(i as int).map_values(
                    |w: WaitingView| answer(w, data@),
                ),
            decreases ready.len() - i,
        {
            proof {
                assert(ready.deep_view()[i as int] == asked[i as int]);
                assert(asked[i as int].key == k);
            }
            match ready[i].who {
                Waiter::Ticket(ticket) => {
                    let whole: Vec<u8> = copy_of(&data);
                    emit(out, Output::Deliver { ticket, result: Ok(whole) });
                },
                Waiter::Relay { to, offset } => {
                    emit(out, Output::Send { to, msg: chunk(&key, &data, offset) });
                },
            }
            i += 1;
        }
        proof {
            assert(asked.take(i as int) =~= asked);
        }
        proof {
            assert(data.deep_view() =~= data@);
        }
        self.cache.insert(key, data);
    }

    /// Contents will not come: tell everyone waiting for them.
    fn fail_waiters(&mut self, key: &ClipKey, why: ClipError, out: &mut Vec<Output>)
        requires
            old(self).wf(),
        ensures
            final(self).wf(),
            final(self)@ == old(self)@.fail(key.deep_view(), why).after,
            final(out).deep_view() == old(out).deep_view() + old(self)@.fail(
                key.deep_view(),
                why,
            ).out,
    {
        let ghost k = key.deep_view();
        let ghost first = self@;
        let ghost sent = out.deep_view();
        let elsewhere = |w: &Waiting| -> (r: bool)
            ensures
                r == waits_for_other(key.deep_view())(w.deep_view()),
            { !w.key.same(key) };
        let failed: Vec<Waiting> = sift(&mut self.waiting, elsewhere, Ghost(waits_for_other(k)));
        let ghost asked = first.waiting.filter(waits_for(k));
        proof {
            assert((|w: WaitingView| !waits_for_other(k)(w)) =~= waits_for(k));
            assert(failed.deep_view() == asked);
        }
        let mut i: usize = 0;
        while i < failed.len()
            invariant
                i <= failed.len(),
                k == key.deep_view(),
                failed.deep_view() == asked,
                forall|j: int| 0 <= j < asked.len() ==> (#[trigger] asked[j]).key == k,
                out.deep_view() =~= sent + asked.take(i as int).map_values(
                    |w: WaitingView| refusal(w, why),
                ),
            decreases failed.len() - i,
        {
            proof {
                assert(failed.deep_view()[i as int] == asked[i as int]);
                assert(asked[i as int].key == k);
            }
            match failed[i].who {
                Waiter::Ticket(ticket) => {
                    emit(out, Output::Deliver { ticket, result: Err(why) });
                },
                Waiter::Relay { to, offset } => {
                    let msg: Bulk = Bulk::ClipUnavailable {
                        seq: key.seq,
                        format: key.format.clone(),
                        reason: why,
                    };
                    emit(out, Output::Send { to, msg });
                },
            }
            i += 1;
        }
        proof {
            assert(asked.take(i as int) =~= asked);
        }
    }

    fn fail_each(&mut self, keys: &Vec<ClipKey>, why: ClipError, out: &mut Vec<Output>)
        requires
            old(self).wf(),
        ensures
            final(self).wf(),
            final(self)@ == old(self)@.fail_each(keys.deep_view(), why).after,
            final(out).deep_view() == old(out).deep_view() + old(self)@.fail_each(
                keys.deep_view(),
                why,
            ).out,
    {
        let ghost first = self@;
        let ghost sent = out.deep_view();
        let ghost all = keys.deep_view();
        let mut i: usize = 0;
        proof {
            assert(all.take(0) =~= Seq::<KeyView>::empty());
        }
        while i < keys.len()
            invariant
                i <= keys.len(),
                all == keys.deep_view(),
                self.wf(),
                self@ == first.fail_each(all.take(i as int), why).after,
                out.deep_view() =~= sent + first.fail_each(all.take(i as int), why).out,
            decreases keys.len() - i,
        {
            proof {
                assert(all.take(i + 1).drop_last() =~= all.take(i as int));
                assert(all.take(i + 1).last() == keys@[i as int].deep_view());
            }
            self.fail_waiters(&keys[i], why, out);
            i += 1;
        }
        proof {
            assert(all.take(i as int) =~= all);
        }
    }

    /// An offer is over: nothing about it will be asked for or answered again.
    fn forget(&mut self, seq: ClipSeq, out: &mut Vec<Output>)
        requires
            old(self).wf(),
        ensures
            final(self).wf(),
            final(self)@ == old(self)@.forget(seq).after,
            final(out).deep_view() == old(out).deep_view() + old(self)@.forget(seq).out,
    {
        let ghost first = self@;
        let ghost sent = out.deep_view();
        let kept = |e: &(ClipKey, Vec<u8>)| -> (r: bool)
            ensures
                r == (e.deep_view().0.seq != seq),
            { !e.0.seq.same(&seq) };
        let ghost keep = |e: (KeyView, Seq<u8>)| e.0.seq != seq;
        let _gone: Vec<(ClipKey, Vec<u8>)> = sift(&mut self.cache.rows, kept, Ghost(keep));
        let unread = |k: &ClipKey| -> (r: bool)
            ensures
                r == (k.deep_view().seq != seq),
            { !k.seq.same(&seq) };
        let _unread: Vec<ClipKey> = sift(
            &mut self.reading,
            unread,
            Ghost(|k: KeyView| k.seq != seq),
        );
        let going = |e: &(ClipKey, Fetching)| -> (r: bool)
            ensures
                r == (e.deep_view().0.seq != seq),
            { !e.0.seq.same(&seq) };
        let ghost fetch_on = |e: (KeyView, FetchingView)| e.0.seq != seq;
        let ghost fetch_off = |e: (KeyView, FetchingView)| e.0.seq == seq;
        let fetches: Vec<(ClipKey, Fetching)> = sift(
            &mut self.fetching.rows,
            going,
            Ghost(fetch_on),
        );
        let ghost ended = first.fetching.filter(fetch_off);
        proof {
            assert((|e: (KeyView, FetchingView)| !fetch_on(e)) =~= fetch_off);
            assert(fetches.deep_view() == ended);
            crate::table::filtering_stays_keyed(first.cache, keep);
            crate::table::filtering_stays_keyed(first.fetching, fetch_on);
        }
        let mut i: usize = 0;
        while i < fetches.len()
            invariant
                i <= fetches.len(),
                fetches.deep_view() == ended,
                forall|j: int| 0 <= j < ended.len() ==> (#[trigger] ended[j]).0.seq == seq,
                out.deep_view() =~= sent + ended.take(i as int).map_values(
                    |e: (KeyView, FetchingView)| cancelled(e),
                ),
            decreases fetches.len() - i,
        {
            proof {
                assert(fetches.deep_view()[i as int] == ended[i as int]);
                assert(ended[i as int].0.seq == seq);
            }
            let msg: Bulk = Bulk::ClipCancel { seq, format: fetches[i].0.format.clone() };
            emit(out, Output::Send { to: fetches[i].1.from, msg });
            i += 1;
        }
        proof {
            assert(ended.take(i as int) =~= ended);
        }
        let keys: Vec<ClipKey> = self.keys_waited_for(seq);
        self.fail_each(&keys, ClipError::Stale, out);
    }

    /// What anyone waits for of one copy, each once, in order.
    fn keys_waited_for(&self, seq: ClipSeq) -> (keys: Vec<ClipKey>)
        ensures
            keys.deep_view() == self@.wanted_formats(seq).map_values(
                |f: FormatView| KeyView { seq, format: f },
            ),
    {
        let ghost all = self.waiting.deep_view();
        let ghost of_seq = |w: WaitingView| w.key.seq == seq;
        let ghost its_format = |w: WaitingView| w.key.format;
        let mut formats: OrderedSet<ClipFormat> = OrderedSet::new();
        let mut i: usize = 0;
        proof {
            reveal(Seq::filter);
            assert(all.take(0) =~= Seq::<WaitingView>::empty());
            assert(all.take(0).filter(of_seq).map_values(its_format) =~= Seq::<
                FormatView,
            >::empty());
        }
        while i < self.waiting.len()
            invariant
                i <= self.waiting.len(),
                all == self.waiting.deep_view(),
                of_seq == (|w: WaitingView| w.key.seq == seq),
                its_format == (|w: WaitingView| w.key.format),
                ascending::<ClipFormat>(formats.members()),
                formats.members() == in_order::<ClipFormat>(
                    all.take(i as int).filter(of_seq).map_values(its_format),
                ),
            decreases self.waiting.len() - i,
        {
            let w: &Waiting = &self.waiting[i];
            proof {
                crate::table::filter_one_more(all, i as int, of_seq);
                assert(all[i as int] == w.deep_view());
            }
            if w.key.seq.same(&seq) {
                proof {
                    let before = all.take(i as int).filter(of_seq);
                    let mapped = before.push(all[i as int]).map_values(its_format);
                    assert(mapped.drop_last() =~= before.map_values(its_format));
                    assert(mapped.last() == w.key.format.deep_view());
                }
                formats.insert(w.key.format.clone());
            }
            i += 1;
        }
        proof {
            assert(all.take(i as int) =~= all);
        }
        let mut keys: Vec<ClipKey> = Vec::new();
        let mut j: usize = 0;
        while j < formats.items.len()
            invariant
                j <= formats.items.len(),
                keys.deep_view() =~= formats.members().take(j as int).map_values(
                    |f: FormatView| KeyView { seq, format: f },
                ),
            decreases formats.items.len() - j,
        {
            let ghost earlier = keys.deep_view();
            let key: ClipKey = ClipKey { seq, format: formats.items[j].clone() };
            let ghost added = key.deep_view();
            keys.push(key);
            proof {
                assert(keys.deep_view() =~= earlier.push(added));
                assert(added == KeyView { seq, format: formats.members()[j as int] });
            }
            j += 1;
        }
        proof {
            assert(formats.members().take(j as int) =~= formats.members());
        }
        keys
    }

    fn forget_local(&mut self, out: &mut Vec<Output>)
        requires
            old(self).wf(),
        ensures
            final(self).wf(),
            final(self)@ == old(self)@.forget_local().after,
            final(out).deep_view() == old(out).deep_view() + old(self)@.forget_local().out,
    {
        let ghost first = self@;
        match self.local.take() {
            Some(own) => {
                assert(self@ == ExchangeView { local: None, ..first });
                self.forget(own.seq, out);
            },
            None => {},
        }
    }

    fn forget_remote(&mut self, except: Option<ClipSeq>, out: &mut Vec<Output>)
        requires
            old(self).wf(),
        ensures
            final(self).wf(),
            final(self)@ == old(self)@.forget_remote(except).after,
            final(out).deep_view() == old(out).deep_view() + old(self)@.forget_remote(except).out,
    {
        let ghost first = self@;
        match self.remote.take() {
            Some(held) => {
                assert(self@ == ExchangeView { remote: None, ..first });
                let kept: bool = match &except {
                    Some(seq) => seq.same(&held.seq),
                    None => false,
                };
                if !kept {
                    self.forget(held.seq, out);
                }
            },
            None => {},
        }
    }

    fn peer_up(&mut self, peer: DeviceId, out: &mut Vec<Output>)
        requires
            old(self).wf(),
        ensures
            final(self).wf(),
            final(self)@ == old(self)@.peer_up(peer).after,
            final(out).deep_view() == old(out).deep_view() + old(self)@.peer_up(peer).out,
    {
        self.peers.insert(peer);
        if !self.enabled {
            return;
        }
        let came_from_there: bool = match &self.remote {
            Some(held) => held.from.same(&peer),
            None => false,
        };
        if let Some(current) = self.current_offer() {
            if !came_from_there {
                emit(out, Output::Send { to: peer, msg: Bulk::ClipOffer(current) });
            }
        }
    }

    fn peer_gone(&mut self, peer: DeviceId, out: &mut Vec<Output>)
        requires
            old(self).wf(),
        ensures
            final(self).wf(),
            final(self)@ == old(self)@.peer_gone(peer).after,
            final(out).deep_view() == old(out).deep_view() + old(self)@.peer_gone(peer).out,
    {
        let ghost first = self@;
        let ghost sent = out.deep_view();
        self.peers.remove(&peer);
        let elsewhere = |e: &(ClipKey, Fetching)| -> (r: bool)
            ensures
                r == (e.deep_view().1.from != peer),
            { !e.1.from.same(&peer) };
        let ghost keep = |e: (KeyView, FetchingView)| e.1.from != peer;
        let ghost lost = |e: (KeyView, FetchingView)| e.1.from == peer;
        let fetches: Vec<(ClipKey, Fetching)> = sift(
            &mut self.fetching.rows,
            elsewhere,
            Ghost(keep),
        );
        proof {
            assert((|e: (KeyView, FetchingView)| !keep(e)) =~= lost);
            crate::table::filtering_stays_keyed(first.fetching, keep);
        }
        let mut keys: Vec<ClipKey> = Vec::new();
        let mut i: usize = 0;
        while i < fetches.len()
            invariant
                i <= fetches.len(),
                keys.deep_view() =~= fetches.deep_view().take(i as int).map_values(
                    |e: (KeyView, FetchingView)| e.0,
                ),
            decreases fetches.len() - i,
        {
            let ghost earlier = keys.deep_view();
            let key: ClipKey = fetches[i].0.clone();
            let ghost added = key.deep_view();
            keys.push(key);
            proof {
                assert(keys.deep_view() =~= earlier.push(added));
                assert(added == fetches.deep_view()[i as int].0);
            }
            i += 1;
        }
        proof {
            assert(fetches.deep_view().take(i as int) =~= fetches.deep_view());
            assert(keys.deep_view() == first.fetched_from(peer));
        }
        self.fail_each(&keys, ClipError::Cancelled, out);
        let ghost failed = self@;
        let staying = |w: &Waiting| -> (r: bool)
            ensures
                r == !(w.deep_view().who is Relay && w.deep_view().who->to == peer),
            {
                match w.who {
                    Waiter::Relay { to, offset } => !to.same(&peer),
                    Waiter::Ticket(_) => true,
                }
            };
        let _left: Vec<Waiting> = sift(
            &mut self.waiting,
            staying,
            Ghost(|w: WaitingView| !(w.who is Relay && w.who->to == peer)),
        );
        let held_from_there: bool = match &self.remote {
            Some(held) => held.from.same(&peer),
            None => false,
        };
        if held_from_there {
            self.forget_remote(None, out);
            emit(out, Output::ReleaseLocally);
        }
        proof {
            assert(out.deep_view() =~= sent + first.peer_gone(peer).out);
        }
    }

    /// The formats among these that this machine is set to carry.
    fn carried(&self, formats: Vec<ClipFormat>) -> (r: Vec<ClipFormat>)
        ensures
            r.deep_view() == formats.deep_view().filter(
                |f: FormatView| self@.allowed.contains(f),
            ),
    {
        let mut formats = formats;
        let allowed: &Vec<ClipFormat> = &self.allowed;
        let usable = |f: &ClipFormat| -> (r: bool)
            ensures
                r == allowed.deep_view().contains(f.deep_view()),
            { listed(allowed, f) };
        let ghost keep = |f: FormatView| self@.allowed.contains(f);
        let _unusable: Vec<ClipFormat> = sift(&mut formats, usable, Ghost(keep));
        formats
    }

    fn is_echo(&self, formats: &Vec<ClipFormat>, now: u64) -> (r: bool)
        ensures
            r == self@.is_echo(formats.deep_view(), now),
    {
        match &self.remote {
            Some(held) => {
                let ghost hv = held.deep_view();
                assert(self@.remote == Some(hv));
                if now > held.placed && now - held.placed > ECHO_WINDOW {
                    return false;
                }
                let mut i: usize = 0;
                while i < formats.len()
                    invariant
                        i <= formats.len(),
                        hv == held.deep_view(),
                        self@.remote == Some(hv),
                        forall|j: int|
                            0 <= j < i ==> hv.formats.contains(
                                #[trigger] formats.deep_view()[j],
                            ),
                    decreases formats.len() - i,
                {
                    if !listed(&held.formats, &formats[i]) {
                        proof {
                            assert(!hv.formats.contains(formats.deep_view()[i as int]));
                        }
                        return false;
                    }
                    i += 1;
                }
                true
            },
            None => false,
        }
    }

    fn local_changed(&mut self, formats: Vec<ClipFormat>, now: u64, out: &mut Vec<Output>)
        requires
            old(self).wf(),
            old(self)@.counter < u64::MAX,
        ensures
            final(self).wf(),
            final(self)@ == old(self)@.local_changed(formats.deep_view(), now).after,
            final(out).deep_view() == old(out).deep_view() + old(self)@.local_changed(
                formats.deep_view(),
                now,
            ).out,
    {
        let ghost first = self@;
        let ghost sent = out.deep_view();
        let ghost available = formats.deep_view();
        if !self.enabled {
            return;
        }
        let formats: Vec<ClipFormat> = self.carried(formats);
        if formats.is_empty() || self.is_echo(&formats, now) {
            return;
        }
        self.forget_local(out);
        self.forget_remote(None, out);
        proof {
            first.forgetting_keeps_the_rest();
        }
        self.counter = self.counter + 1;
        let seq: ClipSeq = ClipSeq { device: self.me, counter: self.counter };
        let ghost told = out.deep_view();
        let announced: ClipOffer = offer(seq, &formats);
        let ghost msg = BulkView::ClipOffer(announcement(seq, formats.deep_view()));
        let mut i: usize = 0;
        while i < self.peers.items.len()
            invariant
                i <= self.peers.items.len(),
                announced.deep_view() == announcement(seq, formats.deep_view()),
                msg == BulkView::ClipOffer(announcement(seq, formats.deep_view())),
                out.deep_view() =~= told + to_each(self.peers.members().take(i as int), msg),
            decreases self.peers.items.len() - i,
        {
            let to: DeviceId = self.peers.items[i];
            assert(self.peers.members()[i as int] == to);
            emit(out, Output::Send { to, msg: Bulk::ClipOffer(announced.clone()) });
            i += 1;
        }
        proof {
            assert(self.peers.members().take(i as int) =~= self.peers.members());
        }
        self.local = Some(Own { seq, formats });
        proof {
            assert(out.deep_view() =~= sent + first.local_changed(available, now).out);
        }
    }

    fn offered(&mut self, from: DeviceId, offer_made: ClipOffer, now: u64, out: &mut Vec<Output>)
        requires
            old(self).wf(),
        ensures
            final(self).wf(),
            final(self)@ == old(self)@.offered(from, offer_made.deep_view(), now).after,
            final(out).deep_view() == old(out).deep_view() + old(self)@.offered(
                from,
                offer_made.deep_view(),
                now,
            ).out,
    {
        let ghost first = self@;
        let ghost sent = out.deep_view();
        let ghost entries = offer_made.entries.deep_view();
        if !self.enabled {
            return;
        }
        let mut named: Vec<ClipFormat> = Vec::new();
        let mut i: usize = 0;
        while i < offer_made.entries.len()
            invariant
                i <= offer_made.entries.len(),
                entries == offer_made.entries.deep_view(),
                named.deep_view() =~= entries.take(i as int).map_values(
                    |e: EntryView| e.format,
                ),
            decreases offer_made.entries.len() - i,
        {
            let ghost earlier = named.deep_view();
            let format: ClipFormat = offer_made.entries[i].format.clone();
            let ghost added = format.deep_view();
            named.push(format);
            proof {
                assert(named.deep_view() =~= earlier.push(added));
                assert(added == entries[i as int].format);
            }
            i += 1;
        }
        proof {
            assert(entries.take(i as int) =~= entries);
        }
        let formats: Vec<ClipFormat> = self.carried(named);
        if formats.is_empty() {
            return;
        }
        let seq: ClipSeq = offer_made.seq;
        self.forget_local(out);
        self.forget_remote(Some(seq), out);
        proof {
            first.forgetting_keeps_the_rest();
        }
        let shown: Vec<ClipFormat> = formats.clone();
        proof {
            assert(shown.deep_view() =~= formats.deep_view());
        }
        emit(out, Output::OfferLocally { seq, formats: shown });
        let ghost told = out.deep_view();
        let forwarded: ClipOffer = offer(seq, &formats);
        let ghost msg = BulkView::ClipOffer(announcement(seq, formats.deep_view()));
        let ghost others = |p: DeviceId| p != from;
        let ghost peers = self.peers.members();
        let mut j: usize = 0;
        proof {
            reveal(Seq::filter);
            assert(peers.take(0) =~= Seq::<DeviceId>::empty());
        }
        while j < self.peers.items.len()
            invariant
                j <= self.peers.items.len(),
                peers == self.peers.members(),
                others == (|p: DeviceId| p != from),
                forwarded.deep_view() == announcement(seq, formats.deep_view()),
                msg == BulkView::ClipOffer(announcement(seq, formats.deep_view())),
                out.deep_view() =~= told + to_each(peers.take(j as int).filter(others), msg),
            decreases self.peers.items.len() - j,
        {
            let to: DeviceId = self.peers.items[j];
            proof {
                assert(peers[j as int] == to);
                crate::table::filter_one_more(peers, j as int, others);
            }
            if !to.same(&from) {
                emit(out, Output::Send { to, msg: Bulk::ClipOffer(forwarded.clone()) });
            }
            j += 1;
        }
        proof {
            assert(peers.take(j as int) =~= peers);
            assert(peers == first.peers);
            crate::table::without_item_filters(peers, from, others);
            assert(offer_made.deep_view().entries == entries);
        }
        self.remote = Some(Held { seq, from, formats, placed: now });
        proof {
            assert(out.deep_view() =~= sent + first.offered(
                from,
                offer_made.deep_view(),
                now,
            ).out);
        }
    }

    fn start_fetch(&mut self, from: DeviceId, key: ClipKey, out: &mut Vec<Output>)
        requires
            old(self).wf(),
        ensures
            final(self).wf(),
            final(self)@ == old(self)@.start_fetch(from, key.deep_view()).after,
            final(out).deep_view() == old(out).deep_view() + old(self)@.start_fetch(
                from,
                key.deep_view(),
            ).out,
    {
        if self.fetching.contains_key(&key) {
            return;
        }
        let msg: Bulk = Bulk::ClipRequest {
            seq: key.seq,
            format: key.format.clone(),
            offset: 0,
        };
        let started: Fetching = Fetching { from, buf: Vec::new() };
        assert(started.deep_view() =~= FetchingView { from, buf: Seq::empty() });
        self.fetching.insert(key, started);
        emit(out, Output::Send { to: from, msg });
    }

    /// Remember who wants this.
    fn wait(&mut self, key: &ClipKey, who: Waiter)
        requires
            old(self).wf(),
        ensures
            final(self).wf(),
            final(self)@ == old(self)@.wait(key.deep_view(), who),
    {
        let ghost earlier = self.waiting.deep_view();
        let waiting: Waiting = Waiting { key: key.clone(), who };
        let ghost added = waiting.deep_view();
        self.waiting.push(waiting);
        assert(self.waiting.deep_view() =~= earlier.push(added));
    }

    /// Whether this format of this copy is on this machine's own clipboard.
    fn offers(&self, key: &ClipKey) -> (r: bool)
        ensures
            r == self@.offers(key.deep_view()),
    {
        match &self.local {
            Some(own) => own.seq.same(&key.seq) && listed(&own.formats, &key.format),
            None => false,
        }
    }

    /// The machine to fetch this format of this copy from.
    fn owner_of(&self, key: &ClipKey) -> (r: Option<DeviceId>)
        ensures
            r == if self@.holds(key.deep_view()) {
                Some(self@.remote->0.from)
            } else {
                None
            },
    {
        match &self.remote {
            Some(held) => if held.seq.same(&key.seq) && listed(&held.formats, &key.format) {
                Some(held.from)
            } else {
                None
            },
            None => None,
        }
    }

    fn requested(&mut self, from: DeviceId, key: ClipKey, offset: u64, out: &mut Vec<Output>)
        requires
            old(self).wf(),
        ensures
            final(self).wf(),
            final(self)@ == old(self)@.requested(from, key.deep_view(), offset).after,
            final(out).deep_view() == old(out).deep_view() + old(self)@.requested(
                from,
                key.deep_view(),
                offset,
            ).out,
    {
        if let Some(data) = self.cache.get(&key) {
            proof {
                assert(data.deep_view() =~= data@);
            }
            emit(out, Output::Send { to: from, msg: chunk(&key, data, offset) });
            return;
        }
        if self.offers(&key) {
            self.wait(&key, Waiter::Relay { to: from, offset });
            if !listed(&self.reading, &key) {
                let ghost earlier = self.reading.deep_view();
                let seq: ClipSeq = key.seq;
                let format: ClipFormat = key.format.clone();
                let ghost added = key.deep_view();
                self.reading.push(key);
                proof {
                    assert(self.reading.deep_view() =~= earlier.push(added));
                }
                emit(out, Output::ReadLocal { seq, format });
            }
            return;
        }
        if let Some(owner) = self.owner_of(&key) {
            if !owner.same(&from) {
                self.wait(&key, Waiter::Relay { to: from, offset });
                self.start_fetch(owner, key, out);
                return;
            }
        }
        let msg: Bulk = Bulk::ClipUnavailable {
            seq: key.seq,
            format: key.format,
            reason: ClipError::Stale,
        };
        emit(out, Output::Send { to: from, msg });
    }

    fn wanted(&mut self, ticket: u64, key: ClipKey, out: &mut Vec<Output>)
        requires
            old(self).wf(),
        ensures
            final(self).wf(),
            final(self)@ == old(self)@.wanted(ticket, key.deep_view()).after,
            final(out).deep_view() == old(out).deep_view() + old(self)@.wanted(
                ticket,
                key.deep_view(),
            ).out,
    {
        if let Some(data) = self.cache.get(&key) {
            let whole: Vec<u8> = copy_of(data);
            proof {
                assert(data.deep_view() =~= data@);
            }
            emit(out, Output::Deliver { ticket, result: Ok(whole) });
            return;
        }
        match self.owner_of(&key) {
            Some(owner) => {
                self.wait(&key, Waiter::Ticket(ticket));
                self.start_fetch(owner, key, out);
            },
            None => {
                emit(out, Output::Deliver { ticket, result: Err(ClipError::Stale) });
            },
        }
    }

    fn give_up(&mut self, from: DeviceId, key: &ClipKey, why: ClipError, out: &mut Vec<Output>)
        requires
            old(self).wf(),
        ensures
            final(self).wf(),
            final(self)@ == old(self)@.give_up(from, key.deep_view(), why).after,
            final(out).deep_view() == old(out).deep_view() + old(self)@.give_up(
                from,
                key.deep_view(),
                why,
            ).out,
    {
        let ghost first = self@;
        let ghost sent = out.deep_view();
        let _ended: Option<Fetching> = self.fetching.remove(key);
        let msg: Bulk = Bulk::ClipCancel { seq: key.seq, format: key.format.clone() };
        emit(out, Output::Send { to: from, msg });
        self.fail_waiters(key, why, out);
        proof {
            assert(out.deep_view() =~= sent + first.give_up(from, key.deep_view(), why).out);
        }
    }

    fn chunk_arrived(
        &mut self,
        from: DeviceId,
        key: ClipKey,
        offset: u64,
        data: Vec<u8>,
        last: bool,
        out: &mut Vec<Output>,
    )
        requires
            old(self).wf(),
        ensures
            final(self).wf(),
            final(self)@ == old(self)@.chunk_arrived(
                from,
                key.deep_view(),
                offset,
                data@,
                last,
            ).after,
            final(out).deep_view() == old(out).deep_view() + old(self)@.chunk_arrived(
                from,
                key.deep_view(),
                offset,
                data@,
                last,
            ).out,
    {
        let ghost first = self@;
        let ghost k = key.deep_view();
        let at: usize = match self.fetching.position(&key) {
            Some(i) => i,
            None => {
                return ;
            },
        };
        let have: usize = self.fetching.rows[at].1.buf.len();
        let ghost fetch_view = self.fetching.entries()[at as int].1;
        assert(fetch_view == self.fetching.rows@[at as int].1.deep_view());
        if !self.fetching.rows[at].1.from.same(&from) {
            return ;
        }
        if offset != have as u64 {
            self.give_up(from, &key, ClipError::Cancelled, out);
            return ;
        }
        let mut data = data;
        let mut row: (ClipKey, Fetching) = self.fetching.take_row(at);
        row.1.buf.append(&mut data);
        let now_have: u64 = row.1.buf.len() as u64;
        if now_have > self.max_bytes {
            let ghost sent = out.deep_view();
            let cancel: Bulk = Bulk::ClipCancel { seq: key.seq, format: key.format.clone() };
            emit(out, Output::Send { to: from, msg: cancel });
            let why: ClipError = ClipError::TooLarge { bytes: now_have, limit: self.max_bytes };
            self.fail_waiters(&key, why, out);
            proof {
                assert(out.deep_view() =~= sent + first.give_up(from, k, why).out);
            }
        } else if !last {
            let msg: Bulk = Bulk::ClipRequest {
                seq: key.seq,
                format: key.format,
                offset: now_have,
            };
            self.fetching.put_row(at, row, Ghost(first.fetching));
            emit(out, Output::Send { to: from, msg });
        } else {
            self.serve_waiters(key, row.1.buf, out);
        }
    }

    fn read_done(
        &mut self,
        key: ClipKey,
        result: Result<Vec<u8>, ClipError>,
        out: &mut Vec<Output>,
    )
        requires
            old(self).wf(),
        ensures
            final(self).wf(),
            final(self)@ == old(self)@.read_done(key.deep_view(), contents(result)).after,
            final(out).deep_view() == old(out).deep_view() + old(self)@.read_done(
                key.deep_view(),
                contents(result),
            ).out,
    {
        let ghost first = self@;
        let other = |k: &ClipKey| -> (r: bool)
            ensures
                r == (k.deep_view() != key.deep_view()),
            { !k.same(&key) };
        let ghost kv = key.deep_view();
        let _read: Vec<ClipKey> = sift(&mut self.reading, other, Ghost(|k: KeyView| k != kv));
        let still_ours: bool = match &self.local {
            Some(own) => own.seq.same(&key.seq),
            None => false,
        };
        proof {
            crate::table::without_item_filters(first.reading, kv, |k: KeyView| k != kv);
            assert(self@ == ExchangeView { reading: without_item(first.reading, kv), ..first });
            assert(still_ours == (first.local is Some && first.local->0.seq == kv.seq));
        }
        match result {
            Ok(data) => {
                if !still_ours {
                    self.fail_waiters(&key, ClipError::Stale, out);
                } else if data.len() as u64 > self.max_bytes {
                    let why: ClipError = ClipError::TooLarge {
                        bytes: data.len() as u64,
                        limit: self.max_bytes,
                    };
                    self.fail_waiters(&key, why, out);
                } else {
                    self.serve_waiters(key, data, out);
                }
            },
            Err(why) => {
                self.fail_waiters(&key, why, out);
            },
        }
    }

    fn peer_said(&mut self, from: DeviceId, msg: Bulk, now: u64, out: &mut Vec<Output>)
        requires
            old(self).wf(),
        ensures
            final(self).wf(),
            final(self)@ == old(self)@.peer_said(from, msg.deep_view(), now).after,
            final(out).deep_view() == old(out).deep_view() + old(self)@.peer_said(
                from,
                msg.deep_view(),
                now,
            ).out,
    {
        match msg {
            Bulk::ClipOffer(offer_made) => {
                self.offered(from, offer_made, now, out);
            },
            Bulk::ClipRequest { seq, format, offset } => {
                self.requested(from, ClipKey { seq, format }, offset, out);
            },
            Bulk::ClipChunk { seq, format, offset, data, last } => {
                self.chunk_arrived(from, ClipKey { seq, format }, offset, data, last, out);
            },
            Bulk::ClipUnavailable { seq, format, reason } => {
                let key: ClipKey = ClipKey { seq, format };
                let ours: bool = match self.fetching.get(&key) {
                    Some(fetch) => fetch.from.same(&from),
                    None => false,
                };
                if ours {
                    let _ended: Option<Fetching> = self.fetching.remove(&key);
                    self.fail_waiters(&key, reason, out);
                }
            },
            // File traffic is not the clipboard's business, and a cancelled
            // request has nothing left to answer.
            _ => {},
        }
    }

    /// Deal with whatever just happened.
    pub fn handle(&mut self, input: Input, now: u64) -> (out: Vec<Output>)
        requires
            old(self).wf(),
            input is LocalChanged ==> old(self)@.counter < u64::MAX,
        ensures
            final(self).wf(),
            final(self)@ == old(self)@.step(input.deep_view(), now).after,
            out.deep_view() == old(self)@.step(input.deep_view(), now).out,
    {
        let ghost first = self@;
        let ghost given = input.deep_view();
        let mut out: Vec<Output> = Vec::new();
        assert(out.deep_view() =~= seq![]);
        match input {
            Input::PeerUp(peer) => self.peer_up(peer, &mut out),
            Input::PeerGone(peer) => self.peer_gone(peer, &mut out),
            Input::LocalChanged(formats) => self.local_changed(formats, now, &mut out),
            Input::FromPeer { from, msg } => self.peer_said(from, msg, now, &mut out),
            Input::Wanted { ticket, seq, format } => self.wanted(
                ticket,
                ClipKey { seq, format },
                &mut out,
            ),
            Input::ReadDone { seq, format, result } => self.read_done(
                ClipKey { seq, format },
                result,
                &mut out,
            ),
        }
        assert(out.deep_view() =~= first.step(given, now).out);
        out
    }
}

impl ExchangeView {
    /// Forgetting copies leaves everything else as it was.
    pub proof fn failing_keeps_the_rest(self, keys: Seq<KeyView>, why: ClipError)
        ensures
            self.fail_each(keys, why).after == (ExchangeView {
                waiting: self.fail_each(keys, why).after.waiting,
                ..self
            }),
        decreases keys.len(),
    {
        if keys.len() > 0 {
            self.failing_keeps_the_rest(keys.drop_last(), why);
        }
    }

    pub proof fn forget_keeps_the_rest(self, seq: ClipSeq)
        ensures
            self.forget(seq).after == (ExchangeView {
                cache: self.forget(seq).after.cache,
                reading: self.forget(seq).after.reading,
                fetching: self.forget(seq).after.fetching,
                waiting: self.forget(seq).after.waiting,
                ..self
            }),
    {
        let cleared = ExchangeView {
            cache: self.cache.filter(|e: (KeyView, Seq<u8>)| e.0.seq != seq),
            reading: self.reading.filter(|k: KeyView| k.seq != seq),
            fetching: self.fetching.filter(|e: (KeyView, FetchingView)| e.0.seq != seq),
            ..self
        };
        let keys = self.wanted_formats(seq).map_values(
            |f: FormatView| KeyView { seq, format: f },
        );
        cleared.failing_keeps_the_rest(keys, ClipError::Stale);
    }

    /// What is offered from here is not touched by a departure, and what was
    /// held from the machine that left is held no more.
    pub proof fn departing_keeps_the_rest(self, peer: DeviceId)
        ensures
            self.peer_gone(peer).after.local == self.local,
            self.peer_gone(peer).after.remote == if self.remote is Some && self.remote->0.from
                == peer {
                None
            } else {
                self.remote
            },
    {
        let cut = ExchangeView {
            peers: without_item(self.peers, peer),
            fetching: self.fetching.filter(|e: (KeyView, FetchingView)| e.1.from != peer),
            ..self
        };
        let failed = cut.fail_each(self.fetched_from(peer), ClipError::Cancelled);
        cut.failing_keeps_the_rest(self.fetched_from(peer), ClipError::Cancelled);
        let left = ExchangeView {
            waiting: failed.after.waiting.filter(
                |w: WaitingView| !(w.who is Relay && w.who->to == peer),
            ),
            ..failed.after
        };
        if left.remote is Some && left.remote->0.from == peer {
            ExchangeView { remote: None, ..left }.forget_keeps_the_rest(left.remote->0.seq);
        }
    }

    pub proof fn forgetting_keeps_the_rest(self)
        ensures
            ({
                let a = self.forget_local().after;
                &&& a.me == self.me
                &&& a.peers == self.peers
                &&& a.counter == self.counter
                &&& a.allowed == self.allowed
                &&& a.max_bytes == self.max_bytes
                &&& a.enabled == self.enabled
                &&& a.local is None
                &&& a.remote == self.remote
                &&& forall|except: Option<ClipSeq>|
                    {
                        let b = #[trigger] a.forget_remote(except).after;
                        &&& b.me == self.me
                        &&& b.peers == self.peers
                        &&& b.counter == self.counter
                        &&& b.allowed == self.allowed
                        &&& b.max_bytes == self.max_bytes
                        &&& b.enabled == self.enabled
                        &&& b.local is None
                        &&& b.remote is None
                    }
            }),
    {
        if let Some(own) = self.local {
            ExchangeView { local: None, ..self }.forget_keeps_the_rest(own.seq);
        }
        let a = self.forget_local().after;
        if let Some(held) = a.remote {
            ExchangeView { remote: None, ..a }.forget_keeps_the_rest(held.seq);
        }
    }
}

} // verus!
