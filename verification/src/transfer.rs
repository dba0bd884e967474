//! Moving files between machines, a chunk at a time.
//!
//! Files ride on the clipboard. Copying files puts a *manifest* -- names and
//! sizes, nothing more -- where the list of files would have gone, and the
//! clipboard exchange carries it like any other format. Only when something
//! pastes are the files themselves pulled, one chunk per request, from the
//! machine that has them, and written where they land. A folder copied and
//! never pasted costs one small message.
//!
//! Like the exchange this is a hub-and-spoke: a client speaks only to the
//! server, and the server passes requests on to the machine named in the
//! transfer's id and chunks back to whoever asked. Nothing here touches a
//! file or a socket; that is the caller's, in answer to the outputs.

use vstd::prelude::*;

use crate::layout::DeviceId;
use crate::order::Alike;
use crate::proto::{Bulk, BulkView, TransferId};
use crate::table::{
    ascending, erased, filter_one_more, in_order, keyed, listed, sift, stored, value_of, with_item,
    without_item, OrderedSet, Table,
};

verus! {

/// One chunk: which transfer, which of its files, and where it begins.
#[derive(Debug, Clone, Copy, PartialEq, Eq)]
pub struct ChunkKey {
    pub id: TransferId,
    pub index: u32,
    pub offset: u64,
}

impl DeepView for ChunkKey {
    type V = ChunkKey;

    open spec fn deep_view(&self) -> ChunkKey {
        *self
    }
}

impl Alike for ChunkKey {
    fn same(&self, other: &ChunkKey) -> (r: bool) {
        self.index == other.index && self.offset == other.offset && self.id.same(&other.id)
    }
}

/// A machine to be told that a transfer is over.
#[derive(Debug, Clone, Copy, PartialEq, Eq)]
pub struct Orphan {
    pub id: TransferId,
    pub to: DeviceId,
}

impl DeepView for Orphan {
    type V = Orphan;

    open spec fn deep_view(&self) -> Orphan {
        *self
    }
}

impl Alike for Orphan {
    fn same(&self, other: &Orphan) -> (r: bool) {
        self.id.same(&other.id) && self.to.same(&other.to)
    }
}

#[derive(Debug, Clone, PartialEq)]
pub enum Input {
    PeerUp(DeviceId),
    PeerGone(DeviceId),
    /// A file message from a machine.
    FromPeer { from: DeviceId, msg: Bulk },
    /// This machine wants the chunk of file `index` of transfer `id` that
    /// begins at `offset`. The answer comes as [`Output::Chunk`].
    Pull { id: TransferId, index: u32, offset: u64 },
    /// This machine has lost interest in a transfer it was pulling.
    Drop(TransferId),
}

pub enum InputView {
    PeerUp(DeviceId),
    PeerGone(DeviceId),
    FromPeer { from: DeviceId, msg: BulkView },
    Pull { id: TransferId, index: u32, offset: u64 },
    Drop(TransferId),
}

impl DeepView for Input {
    type V = InputView;

    open spec fn deep_view(&self) -> InputView {
        match self {
            Input::PeerUp(peer) => InputView::PeerUp(*peer),
            Input::PeerGone(peer) => InputView::PeerGone(*peer),
            Input::FromPeer { from, msg } => InputView::FromPeer {
                from: *from,
                msg: msg.deep_view(),
            },
            Input::Pull { id, index, offset } => InputView::Pull {
                id: *id,
                index: *index,
                offset: *offset,
            },
            Input::Drop(id) => InputView::Drop(*id),
        }
    }
}

#[derive(Debug, Clone, PartialEq)]
pub enum Output {
    Send { to: DeviceId, msg: Bulk },
    /// Read this chunk of a file this machine offered, and send it to `to`
    /// as a [`Bulk::FileChunk`] -- or a [`Bulk::FileAbort`] if it cannot.
    ReadFile { to: DeviceId, id: TransferId, index: u32, offset: u64 },
    /// A chunk this machine asked for has arrived.
    Chunk { id: TransferId, index: u32, offset: u64, data: Vec<u8>, last: bool },
    /// A transfer this machine was pulling cannot be completed.
    Failed(TransferId),
}

#[verifier::ext_equal]
pub enum OutputView {
    Send { to: DeviceId, msg: BulkView },
    ReadFile { to: DeviceId, id: TransferId, index: u32, offset: u64 },
    Chunk { id: TransferId, index: u32, offset: u64, data: Seq<u8>, last: bool },
    Failed(TransferId),
}

impl DeepView for Output {
    type V = OutputView;

    open spec fn deep_view(&self) -> OutputView {
        match self {
            Output::Send { to, msg } => OutputView::Send { to: *to, msg: msg.deep_view() },
            Output::ReadFile { to, id, index, offset } => OutputView::ReadFile {
                to: *to,
                id: *id,
                index: *index,
                offset: *offset,
            },
            Output::Chunk { id, index, offset, data, last } => OutputView::Chunk {
                id: *id,
                index: *index,
                offset: *offset,
                data: data@,
                last: *last,
            },
            Output::Failed(id) => OutputView::Failed(*id),
        }
    }
}

/// Everything the machine keeps track of.
#[verifier::ext_equal]
pub struct TransferView {
    pub me: DeviceId,
    /// The one machine a client talks to. A hub has none and talks to the
    /// machine each transfer's id names.
    pub hub: Option<DeviceId>,
    /// The machines whose links are up, ascending.
    pub peers: Seq<DeviceId>,
    /// Requests passed on for another machine, in the order in which they were,
    /// remembered so the chunk that answers each can be passed back to the one
    /// that asked.
    pub relays: Seq<(ChunkKey, DeviceId)>,
    /// Transfers this machine is pulling, and where each is coming from.
    pub pulling: Seq<(TransferId, DeviceId)>,
    /// The chunks outstanding on each.
    pub awaiting: Seq<ChunkKey>,
}

/// The state that follows, and what is to be done.
pub struct Step {
    pub after: TransferView,
    pub out: Seq<OutputView>,
}

/// Each item once, where it first occurs.
pub open spec fn firsts<A>(s: Seq<A>) -> Seq<A>
    decreases s.len(),
{
    if s.len() == 0 {
        s
    } else if firsts(s.drop_last()).contains(s.last()) {
        firsts(s.drop_last())
    } else {
        firsts(s.drop_last()).push(s.last())
    }
}

pub open spec fn pulled_through(peer: DeviceId) -> spec_fn((TransferId, DeviceId)) -> bool {
    |e: (TransferId, DeviceId)| e.1 == peer
}

pub open spec fn pulled_elsewhere(peer: DeviceId) -> spec_fn((TransferId, DeviceId)) -> bool {
    |e: (TransferId, DeviceId)| e.1 != peer
}

/// Which of the requests passed on a chunk answers: the earliest for it.
pub open spec fn asked_first(relays: Seq<(ChunkKey, DeviceId)>, key: ChunkKey) -> Option<int>
    decreases relays.len(),
{
    if relays.len() == 0 {
        None
    } else {
        match asked_first(relays.drop_last(), key) {
            Some(i) => Some(i),
            None => if relays.last().0 == key {
                Some(relays.len() - 1)
            } else {
                None
            },
        }
    }
}

pub(crate) proof fn asked_first_is_found(relays: Seq<(ChunkKey, DeviceId)>, key: ChunkKey, i: int)
    requires
        0 <= i < relays.len(),
        relays[i].0 == key,
        asked_first(relays.take(i), key) is None,
    ensures
        asked_first(relays, key) == Some(i),
    decreases relays.len(),
{
    if i == relays.len() - 1 {
        assert(relays.take(i) =~= relays.drop_last());
    } else {
        assert(relays.drop_last().take(i) =~= relays.take(i));
        asked_first_is_found(relays.drop_last(), key, i);
    }
}

/// Requests neither passed on to a machine nor passed on for it.
pub open spec fn relayed_elsewhere(peer: DeviceId) -> spec_fn((ChunkKey, DeviceId)) -> bool {
    |e: (ChunkKey, DeviceId)| e.0.id.device != peer && e.1 != peer
}

pub open spec fn of_none_of(ids: Seq<TransferId>) -> spec_fn(ChunkKey) -> bool {
    |k: ChunkKey| !ids.contains(k.id)
}

pub open spec fn not_connected() -> Seq<char> {
    "the machine holding the files is not connected here"@
}

pub open spec fn went_away() -> Seq<char> {
    "the machine holding the files went away"@
}

impl TransferView {
    pub open spec fn still(self) -> Step {
        Step { after: self, out: seq![] }
    }

    /// Where a request about this transfer goes from here.
    pub open spec fn source_of(self, id: TransferId) -> Option<DeviceId> {
        match self.hub {
            Some(hub) => Some(hub),
            None => if self.peers.contains(id.device) {
                Some(id.device)
            } else {
                None
            },
        }
    }

    /// The pull of a transfer is over.
    pub open spec fn pull_over(self, id: TransferId) -> TransferView {
        TransferView {
            pulling: erased(self.pulling, id),
            awaiting: self.awaiting.filter(|k: ChunkKey| k.id != id),
            ..self
        }
    }

    /// This machine wants a chunk.
    pub open spec fn pull(self, key: ChunkKey) -> Step {
        match self.source_of(key.id) {
            None => Step { after: self, out: seq![OutputView::Failed(key.id)] },
            Some(source) => Step {
                after: TransferView {
                    pulling: stored(self.pulling, key.id, source),
                    awaiting: if self.awaiting.contains(key) {
                        self.awaiting
                    } else {
                        self.awaiting.push(key)
                    },
                    ..self
                },
                out: seq![
                    OutputView::Send {
                        to: source,
                        msg: BulkView::FileRequest {
                            id: key.id,
                            index: key.index,
                            offset: key.offset,
                        },
                    },
                ],
            },
        }
    }

    /// Another machine asks for a chunk: this machine reads its own files, and
    /// passes the rest on if the machine that has them is here.
    pub open spec fn requested(self, from: DeviceId, key: ChunkKey) -> Step {
        if key.id.device == self.me {
            Step {
                after: self,
                out: seq![
                    OutputView::ReadFile {
                        to: from,
                        id: key.id,
                        index: key.index,
                        offset: key.offset,
                    },
                ],
            }
        } else if self.source_of(key.id) is Some && self.source_of(key.id)->0 != from {
            Step {
                after: TransferView { relays: self.relays.push((key, from)), ..self },
                out: seq![
                    OutputView::Send {
                        to: self.source_of(key.id)->0,
                        msg: BulkView::FileRequest {
                            id: key.id,
                            index: key.index,
                            offset: key.offset,
                        },
                    },
                ],
            }
        } else {
            Step {
                after: self,
                out: seq![
                    OutputView::Send {
                        to: from,
                        msg: BulkView::FileAbort { id: key.id, reason: not_connected() },
                    },
                ],
            }
        }
    }

    /// A chunk arrives: it goes to the machine it was asked for, the first of
    /// them where there are several, or is handed over if this machine asked
    /// for it, and where it asked.
    pub open spec fn chunk(self, from: DeviceId, key: ChunkKey, data: Seq<u8>, last: bool) -> Step {
        if let Some(i) = asked_first(self.relays, key) {
            Step {
                after: TransferView { relays: self.relays.remove(i), ..self },
                out: seq![
                    OutputView::Send {
                        to: self.relays[i].1,
                        msg: BulkView::FileChunk {
                            id: key.id,
                            index: key.index,
                            offset: key.offset,
                            data,
                            last,
                        },
                    },
                ],
            }
        } else if value_of(self.pulling, key.id) == Some(from) && self.awaiting.contains(key) {
            Step {
                after: TransferView { awaiting: without_item(self.awaiting, key), ..self },
                out: seq![
                    OutputView::Chunk {
                        id: key.id,
                        index: key.index,
                        offset: key.offset,
                        data,
                        last,
                    },
                ],
            }
        } else {
            self.still()
        }
    }

    /// The machines waiting for a transfer through here, each once, in order.
    pub open spec fn waiting_on(self, id: TransferId) -> Seq<DeviceId> {
        in_order::<DeviceId>(
            self.relays.filter(|e: (ChunkKey, DeviceId)| e.0.id == id).map_values(
                |e: (ChunkKey, DeviceId)| e.1,
            ),
        )
    }

    /// A transfer is aborted: everyone waiting on it through here hears of it.
    pub open spec fn aborted(self, from: DeviceId, id: TransferId, reason: Seq<char>) -> Step {
        let told = self.waiting_on(id).map_values(
            |to: DeviceId| OutputView::Send { to, msg: BulkView::FileAbort { id, reason } },
        );
        let cut = TransferView {
            relays: self.relays.filter(|e: (ChunkKey, DeviceId)| e.0.id != id),
            ..self
        };
        if value_of(self.pulling, id) == Some(from) {
            Step { after: cut.pull_over(id), out: told.push(OutputView::Failed(id)) }
        } else {
            Step { after: cut, out: told }
        }
    }

    pub open spec fn peer_said(self, from: DeviceId, msg: BulkView) -> Step {
        match msg {
            BulkView::FileRequest { id, index, offset } => self.requested(
                from,
                ChunkKey { id, index, offset },
            ),
            BulkView::FileChunk { id, index, offset, data, last } => self.chunk(
                from,
                ChunkKey { id, index, offset },
                data,
                last,
            ),
            BulkView::FileAbort { id, reason } => self.aborted(from, id, reason),
            _ => self.still(),
        }
    }

    /// Who asked for what of a machine's files, each pair once.
    pub open spec fn orphans(self, peer: DeviceId) -> Seq<Orphan> {
        firsts(
            self.relays.filter(|e: (ChunkKey, DeviceId)| e.0.id.device == peer).map_values(
                |e: (ChunkKey, DeviceId)| Orphan { id: e.0.id, to: e.1 },
            ),
        )
    }

    /// The transfers pulled through a machine.
    pub open spec fn lost(self, peer: DeviceId) -> Seq<TransferId> {
        self.pulling.filter(pulled_through(peer)).map_values(|e: (TransferId, DeviceId)| e.0)
    }

    /// A machine is gone: requests passed on to it will never be answered, and
    /// pulls coming through it are over.
    pub open spec fn peer_gone(self, peer: DeviceId) -> Step {
        let lost = self.lost(peer);
        Step {
            after: TransferView {
                peers: without_item(self.peers, peer),
                relays: self.relays.filter(relayed_elsewhere(peer)),
                pulling: self.pulling.filter(pulled_elsewhere(peer)),
                awaiting: self.awaiting.filter(of_none_of(lost)),
                ..self
            },
            out: self.orphans(peer).map_values(
                |o: Orphan| OutputView::Send {
                    to: o.to,
                    msg: BulkView::FileAbort { id: o.id, reason: went_away() },
                },
            ) + lost.map_values(|id: TransferId| OutputView::Failed(id)),
        }
    }

    /// What an input leads to.
    pub open spec fn step(self, input: InputView) -> Step {
        match input {
            InputView::PeerUp(peer) => TransferView {
                peers: with_item::<DeviceId>(self.peers, peer),
                ..self
            }.still(),
            InputView::PeerGone(peer) => self.peer_gone(peer),
            InputView::FromPeer { from, msg } => self.peer_said(from, msg),
            InputView::Pull { id, index, offset } => self.pull(ChunkKey { id, index, offset }),
            InputView::Drop(id) => self.pull_over(id).still(),
        }
    }
}

// --- carrying it out ------------------------------------------------------

fn emit(out: &mut Vec<Output>, o: Output)
    ensures
        final(out).deep_view() == old(out).deep_view().push(o.deep_view()),
{
    let ghost before = out.deep_view();
    let ghost added = o.deep_view();
    out.push(o);
    assert(out.deep_view() =~= before.push(added));
}

/// One machine's part in moving files.
#[derive(Debug)]
pub struct Transfer {
    me: DeviceId,
    hub: Option<DeviceId>,
    peers: OrderedSet<DeviceId>,
    relays: Vec<(ChunkKey, DeviceId)>,
    pulling: Table<TransferId, DeviceId>,
    awaiting: Vec<ChunkKey>,
}

impl View for Transfer {
    type V = TransferView;

    closed spec fn view(&self) -> TransferView {
        TransferView {
            me: self.me,
            hub: self.hub,
            peers: self.peers.members(),
            relays: self.relays.deep_view(),
            pulling: self.pulling.entries(),
            awaiting: self.awaiting.deep_view(),
        }
    }
}

impl Transfer {
    /// The machines are listed in order, and nothing is remembered twice.
    pub open spec fn wf(&self) -> bool {
        &&& ascending::<DeviceId>(self@.peers)
        &&& keyed(self@.pulling)
    }

    /// `hub` is the server, for a client; a server has none.
    pub fn new(me: DeviceId, hub: Option<DeviceId>) -> (r: Transfer)
        ensures
            r.wf(),
            r@ == (TransferView {
                me,
                hub,
                peers: seq![],
                relays: seq![],
                pulling: seq![],
                awaiting: seq![],
            }),
    {
        let r: Transfer = Transfer {
            me,
            hub,
            peers: OrderedSet::new(),
            relays: Vec::new(),
            pulling: Table::new(),
            awaiting: Vec::new(),
        };
        assert(r.relays.deep_view() =~= seq![]);
        assert(r.awaiting.deep_view() =~= seq![]);
        r
    }

    pub fn set_hub(&mut self, hub: Option<DeviceId>)
        requires
            old(self).wf(),
        ensures
            final(self).wf(),
            final(self)@ == (TransferView { hub, ..old(self)@ }),
    {
        self.hub = hub;
    }

    /// Where a request about this transfer goes from here.
    fn source_of(&self, id: TransferId) -> (r: Option<DeviceId>)
        ensures
            r == self@.source_of(id),
    {
        match self.hub {
            Some(hub) => Some(hub),
            None => if self.peers.contains(&id.device) {
                Some(id.device)
            } else {
                None
            },
        }
    }

    fn pull_over(&mut self, id: TransferId)
        requires
            old(self).wf(),
        ensures
            final(self).wf(),
            final(self)@ == old(self)@.pull_over(id),
    {
        let _source: Option<DeviceId> = self.pulling.remove(&id);
        let other = |k: &ChunkKey| -> (r: bool)
            ensures
                r == (k.deep_view().id != id),
            { !k.id.same(&id) };
        let _dropped: Vec<ChunkKey> = sift(
            &mut self.awaiting,
            other,
            Ghost(|k: ChunkKey| k.id != id),
        );
    }

    fn pull(&mut self, key: ChunkKey, out: &mut Vec<Output>)
        requires
            old(self).wf(),
        ensures
            final(self).wf(),
            final(self)@ == old(self)@.pull(key).after,
            final(out).deep_view() == old(out).deep_view() + old(self)@.pull(key).out,
    {
        match self.source_of(key.id) {
            None => {
                emit(out, Output::Failed(key.id));
            },
            Some(source) => {
                self.pulling.insert(key.id, source);
                if !listed(&self.awaiting, &key) {
                    let ghost earlier = self.awaiting.deep_view();
                    self.awaiting.push(key);
                    assert(self.awaiting.deep_view() =~= earlier.push(key));
                }
                let msg: Bulk = Bulk::FileRequest {
                    id: key.id,
                    index: key.index,
                    offset: key.offset,
                };
                emit(out, Output::Send { to: source, msg });
            },
        }
    }

    fn requested(&mut self, from: DeviceId, key: ChunkKey, out: &mut Vec<Output>)
        requires
            old(self).wf(),
        ensures
            final(self).wf(),
            final(self)@ == old(self)@.requested(from, key).after,
            final(out).deep_view() == old(out).deep_view() + old(self)@.requested(from, key).out,
    {
        if key.id.device.same(&self.me) {
            emit(
                out,
                Output::ReadFile { to: from, id: key.id, index: key.index, offset: key.offset },
            );
            return ;
        }
        if let Some(owner) = self.source_of(key.id) {
            if !owner.same(&from) {
                let ghost earlier = self.relays.deep_view();
                self.relays.push((key, from));
                assert(self.relays.deep_view() =~= earlier.push((key, from)));
                let msg: Bulk = Bulk::FileRequest {
                    id: key.id,
                    index: key.index,
                    offset: key.offset,
                };
                emit(out, Output::Send { to: owner, msg });
                return ;
            }
        }
        let reason: String = "the machine holding the files is not connected here".to_owned();
        emit(out, Output::Send { to: from, msg: Bulk::FileAbort { id: key.id, reason } });
    }

    fn asked_first(&self, key: ChunkKey) -> (r: Option<usize>)
        ensures
            match r {
                Some(i) => i < self.relays.len() && asked_first(self@.relays, key) == Some(i as int),
                None => asked_first(self@.relays, key) is None,
            },
    {
        let ghost all = self.relays.deep_view();
        let mut i: usize = 0;
        assert(all.take(0) =~= seq![]);
        while i < self.relays.len()
            invariant
                i <= self.relays.len(),
                all == self.relays.deep_view(),
                asked_first(all.take(i as int), key) is None,
            decreases self.relays.len() - i,
        {
            proof {
                assert(all[i as int] == self.relays@[i as int].deep_view());
                assert(all.take(i + 1).drop_last() =~= all.take(i as int));
            }
            if self.relays[i].0.same(&key) {
                proof {
                    asked_first_is_found(all, key, i as int);
                }
                return Some(i);
            }
            i += 1;
        }
        assert(all.take(i as int) =~= all);
        None
    }

    fn chunk(
        &mut self,
        from: DeviceId,
        key: ChunkKey,
        data: Vec<u8>,
        last: bool,
        out: &mut Vec<Output>,
    )
        requires
            old(self).wf(),
        ensures
            final(self).wf(),
            final(self)@ == old(self)@.chunk(from, key, data@, last).after,
            final(out).deep_view() == old(out).deep_view() + old(self)@.chunk(
                from,
                key,
                data@,
                last,
            ).out,
    {
        let ghost first = self@;
        let (id, index, offset): (TransferId, u32, u64) = (key.id, key.index, key.offset);
        if let Some(i) = self.asked_first(key) {
            let (_asked, to): (ChunkKey, DeviceId) = self.relays.remove(i);
            assert(self.relays.deep_view() =~= first.relays.remove(i as int));
            emit(out, Output::Send { to, msg: Bulk::FileChunk { id, index, offset, data, last } });
            return ;
        }
        let from_there: bool = match self.pulling.get(&id) {
            Some(source) => source.same(&from),
            None => false,
        };
        if from_there && listed(&self.awaiting, &key) {
            let other = |k: &ChunkKey| -> (r: bool)
                ensures
                    r == (k.deep_view() != key),
                { !k.same(&key) };
            let _got: Vec<ChunkKey> = sift(
                &mut self.awaiting,
                other,
                Ghost(|k: ChunkKey| k != key),
            );
            proof {
                crate::table::without_item_filters(first.awaiting, key, |k: ChunkKey| k != key);
            }
            emit(out, Output::Chunk { id, index, offset, data, last });
        }
    }

    fn aborted(&mut self, from: DeviceId, id: TransferId, reason: String, out: &mut Vec<Output>)
        requires
            old(self).wf(),
        ensures
            final(self).wf(),
            final(self)@ == old(self)@.aborted(from, id, reason@).after,
            final(out).deep_view() == old(out).deep_view() + old(self)@.aborted(
                from,
                id,
                reason@,
            ).out,
    {
        let ghost first = self@;
        let ghost sent = out.deep_view();
        let ghost on_it = |e: (ChunkKey, DeviceId)| e.0.id == id;
        let ghost off_it = |e: (ChunkKey, DeviceId)| e.0.id != id;
        let ghost who = |e: (ChunkKey, DeviceId)| e.1;
        let other = |e: &(ChunkKey, DeviceId)| -> (r: bool)
            ensures
                r == (e.deep_view().0.id != id),
            { !e.0.id.same(&id) };
        let gone: Vec<(ChunkKey, DeviceId)> = sift(&mut self.relays, other, Ghost(off_it));
        let ghost asked = first.relays.filter(on_it);
        proof {
            assert((|e: (ChunkKey, DeviceId)| !off_it(e)) =~= on_it);
            assert(gone.deep_view() == asked);
        }
        let mut waiting: OrderedSet<DeviceId> = OrderedSet::new();
        let mut i: usize = 0;
        proof {
            assert(asked.take(0).map_values(who) =~= Seq::<DeviceId>::empty());
        }
        while i < gone.len()
            invariant
                i <= gone.len(),
                gone.deep_view() == asked,
                who == (|e: (ChunkKey, DeviceId)| e.1),
                ascending::<DeviceId>(waiting.members()),
                waiting.members() == in_order::<DeviceId>(asked.take(i as int).map_values(who)),
            decreases gone.len() - i,
        {
            let to: DeviceId = gone[i].1;
            proof {
                let more = asked.take(i + 1).map_values(who);
                assert(gone.deep_view()[i as int] == asked[i as int]);
                assert(more.drop_last() =~= asked.take(i as int).map_values(who));
                assert(more.last() == to);
            }
            waiting.insert(to);
            i += 1;
        }
        proof {
            assert(asked.take(i as int) =~= asked);
            assert(waiting.members() == first.waiting_on(id));
        }
        let mut j: usize = 0;
        while j < waiting.items.len()
            invariant
                j <= waiting.items.len(),
                out.deep_view() =~= sent + waiting.members().take(j as int).map_values(
                    |to: DeviceId| OutputView::Send {
                        to,
                        msg: BulkView::FileAbort { id, reason: reason@ },
                    },
                ),
            decreases waiting.items.len() - j,
        {
            let to: DeviceId = waiting.items[j];
            assert(waiting.members()[j as int] == to);
            emit(out, Output::Send { to, msg: Bulk::FileAbort { id, reason: reason.clone() } });
            j += 1;
        }
        proof {
            assert(waiting.members().take(j as int) =~= waiting.members());
        }
        let from_there: bool = match self.pulling.get(&id) {
            Some(source) => source.same(&from),
            None => false,
        };
        if from_there {
            self.pull_over(id);
            emit(out, Output::Failed(id));
        }
        proof {
            assert(out.deep_view() =~= sent + first.aborted(from, id, reason@).out);
        }
    }

    fn peer_said(&mut self, from: DeviceId, msg: Bulk, out: &mut Vec<Output>)
        requires
            old(self).wf(),
        ensures
            final(self).wf(),
            final(self)@ == old(self)@.peer_said(from, msg.deep_view()).after,
            final(out).deep_view() == old(out).deep_view() + old(self)@.peer_said(
                from,
                msg.deep_view(),
            ).out,
    {
        match msg {
            Bulk::FileRequest { id, index, offset } => {
                self.requested(from, ChunkKey { id, index, offset }, out);
            },
            Bulk::FileChunk { id, index, offset, data, last } => {
                self.chunk(from, ChunkKey { id, index, offset }, data, last, out);
            },
            Bulk::FileAbort { id, reason } => {
                self.aborted(from, id, reason, out);
            },
            // Offers travel inside the clipboard exchange; the rest is not
            // this machine's concern.
            _ => {},
        }
    }

    fn peer_gone(&mut self, peer: DeviceId, out: &mut Vec<Output>)
        requires
            old(self).wf(),
        ensures
            final(self).wf(),
            final(self)@ == old(self)@.peer_gone(peer).after,
            final(out).deep_view() == old(out).deep_view() + old(self)@.peer_gone(peer).out,
    {
        let ghost first = self@;
        let ghost sent = out.deep_view();
        self.peers.remove(&peer);
        // Requests passed on to it will never be answered.
        let orphans: Vec<Orphan> = self.orphans(peer);
        let ghost rest = relayed_elsewhere(peer);
        let elsewhere = |e: &(ChunkKey, DeviceId)| -> (r: bool)
            ensures
                r == (e.deep_view().0.id.device != peer && e.deep_view().1 != peer),
            { !e.0.id.device.same(&peer) && !e.1.same(&peer) };
        let _gone: Vec<(ChunkKey, DeviceId)> = sift(
            &mut self.relays,
            elsewhere,
            Ghost(rest),
        );
        let mut i: usize = 0;
        while i < orphans.len()
            invariant
                i <= orphans.len(),
                out.deep_view() =~= sent + orphans.deep_view().take(i as int).map_values(
                    |o: Orphan| OutputView::Send {
                        to: o.to,
                        msg: BulkView::FileAbort { id: o.id, reason: went_away() },
                    },
                ),
            decreases orphans.len() - i,
        {
            let o: Orphan = orphans[i];
            assert(orphans.deep_view()[i as int] == o);
            let reason: String = "the machine holding the files went away".to_owned();
            emit(out, Output::Send { to: o.to, msg: Bulk::FileAbort { id: o.id, reason } });
            i += 1;
        }
        proof {
            assert(orphans.deep_view().take(i as int) =~= orphans.deep_view());
        }
        // Pulls coming through it are over.
        let ghost told = out.deep_view();
        let ghost keep = pulled_elsewhere(peer);
        let ghost through = pulled_through(peer);
        let elsewhere = |e: &(TransferId, DeviceId)| -> (r: bool)
            ensures
                r == (e.deep_view().1 != peer),
            { !e.1.same(&peer) };
        let pulls: Vec<(TransferId, DeviceId)> = sift(
            &mut self.pulling.rows,
            elsewhere,
            Ghost(keep),
        );
        let ghost over = first.pulling.filter(through);
        proof {
            assert((|e: (TransferId, DeviceId)| !keep(e)) =~= through);
            assert(pulls.deep_view() == over);
            crate::table::filtering_stays_keyed(first.pulling, keep);
        }
        let mut lost: Vec<TransferId> = Vec::new();
        let mut j: usize = 0;
        while j < pulls.len()
            invariant
                j <= pulls.len(),
                pulls.deep_view() == over,
                lost.deep_view() =~= pulls.deep_view().take(j as int).map_values(
                    |e: (TransferId, DeviceId)| e.0,
                ),
                out.deep_view() =~= told + lost.deep_view().map_values(
                    |id: TransferId| OutputView::Failed(id),
                ),
            decreases pulls.len() - j,
        {
            let ghost earlier = lost.deep_view();
            let id: TransferId = pulls[j].0;
            lost.push(id);
            proof {
                assert(lost.deep_view() =~= earlier.push(id));
                assert(pulls.deep_view()[j as int].0 == id);
            }
            emit(out, Output::Failed(id));
            j += 1;
        }
        proof {
            assert(pulls.deep_view().take(j as int) =~= over);
            assert(lost.deep_view() == first.lost(peer));
        }
        let kept = |k: &ChunkKey| -> (r: bool)
            ensures
                r == !lost.deep_view().contains(k.deep_view().id),
            { !listed(&lost, &k.id) };
        let ghost gone_ids = first.lost(peer);
        let _dropped: Vec<ChunkKey> = sift(
            &mut self.awaiting,
            kept,
            Ghost(of_none_of(gone_ids)),
        );
        proof {
            assert(out.deep_view() =~= sent + first.peer_gone(peer).out);
        }
    }

    /// Who asked for what of a machine's files, each pair once.
    fn orphans(&self, peer: DeviceId) -> (told: Vec<Orphan>)
        ensures
            told.deep_view() == self@.orphans(peer),
    {
        let ghost all = self.relays.deep_view();
        let ghost of_peer = |e: (ChunkKey, DeviceId)| e.0.id.device == peer;
        let ghost pair = |e: (ChunkKey, DeviceId)| Orphan { id: e.0.id, to: e.1 };
        let mut told: Vec<Orphan> = Vec::new();
        let mut i: usize = 0;
        proof {
            reveal(Seq::filter);
            assert(all.take(0).filter(of_peer).map_values(pair) =~= Seq::<Orphan>::empty());
            assert(told.deep_view() =~= Seq::<Orphan>::empty());
        }
        while i < self.relays.len()
            invariant
                i <= self.relays.len(),
                all == self.relays.deep_view(),
                of_peer == (|e: (ChunkKey, DeviceId)| e.0.id.device == peer),
                pair == (|e: (ChunkKey, DeviceId)| Orphan { id: e.0.id, to: e.1 }),
                told.deep_view() == firsts(all.take(i as int).filter(of_peer).map_values(pair)),
            decreases self.relays.len() - i,
        {
            let key: ChunkKey = self.relays[i].0;
            let to: DeviceId = self.relays[i].1;
            proof {
                filter_one_more(all, i as int, of_peer);
                assert(all[i as int] == (key, to));
            }
            if key.id.device.same(&peer) {
                let o: Orphan = Orphan { id: key.id, to };
                let ghost earlier = told.deep_view();
                proof {
                    let before = all.take(i as int).filter(of_peer);
                    let mapped = before.push(all[i as int]).map_values(pair);
                    assert(mapped.drop_last() =~= before.map_values(pair));
                    assert(mapped.last() == o);
                }
                if !listed(&told, &o) {
                    told.push(o);
                    assert(told.deep_view() =~= earlier.push(o));
                }
            }
            i += 1;
        }
        proof {
            assert(all.take(i as int) =~= all);
        }
        told
    }

    /// Deal with whatever just happened.
    pub fn handle(&mut self, input: Input) -> (out: Vec<Output>)
        requires
            old(self).wf(),
        ensures
            final(self).wf(),
            final(self)@ == old(self)@.step(input.deep_view()).after,
            out.deep_view() == old(self)@.step(input.deep_view()).out,
    {
        let ghost first = self@;
        let ghost given = input.deep_view();
        let mut out: Vec<Output> = Vec::new();
        assert(out.deep_view() =~= seq![]);
        match input {
            Input::PeerUp(peer) => {
                self.peers.insert(peer);
            },
            Input::PeerGone(peer) => self.peer_gone(peer, &mut out),
            Input::FromPeer { from, msg } => self.peer_said(from, msg, &mut out),
            Input::Pull { id, index, offset } => self.pull(
                ChunkKey { id, index, offset },
                &mut out,
            ),
            Input::Drop(id) => self.pull_over(id),
        }
        assert(out.deep_view() =~= first.step(given).out);
        out
    }
}

} // verus!
