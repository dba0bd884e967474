//! What always holds of moving files.

use vstd::prelude::*;

use crate::layout::DeviceId;
use crate::order::Ranked;
use crate::proto::{BulkView, TransferId};
use crate::table::{
    erased_filters, filter_members, filtered_reads_back, filtering_stays_keyed,
    in_order_lists_each_once, keyed, stored_reads_back, stored_stays_keyed, value_of,
    value_of_finds, without_item_filters,
};
use crate::transfer::{
    asked_first, firsts, not_connected, of_none_of, pulled_elsewhere, pulled_through, relayed_elsewhere,
    went_away, ChunkKey, InputView, Orphan, OutputView, Step, TransferView,
};

verus! {

pub open spec fn request(key: ChunkKey) -> BulkView {
    BulkView::FileRequest { id: key.id, index: key.index, offset: key.offset }
}

pub open spec fn piece(key: ChunkKey, data: Seq<u8>, last: bool) -> BulkView {
    BulkView::FileChunk { id: key.id, index: key.index, offset: key.offset, data, last }
}

pub open spec fn for_chunk(key: ChunkKey) -> spec_fn((ChunkKey, DeviceId)) -> bool {
    |e: (ChunkKey, DeviceId)| e.0 == key
}

/// The machines a chunk was asked for, in the order in which they asked.
pub open spec fn askers(s: TransferView, key: ChunkKey) -> Seq<DeviceId> {
    s.relays.filter(for_chunk(key)).map_values(|e: (ChunkKey, DeviceId)| e.1)
}

proof fn one_more_asks(relays: Seq<(ChunkKey, DeviceId)>, e: (ChunkKey, DeviceId), key: ChunkKey)
    ensures
        relays.push(e).filter(for_chunk(key)) == if e.0 == key {
            relays.filter(for_chunk(key)).push(e)
        } else {
            relays.filter(for_chunk(key))
        },
{
    reveal(Seq::filter);
    assert(relays.push(e).drop_last() =~= relays);
}

proof fn the_first_is_answered(relays: Seq<(ChunkKey, DeviceId)>, key: ChunkKey, other: ChunkKey)
    ensures
        ({
            let mine = for_chunk(key);
            let theirs = for_chunk(other);
            match asked_first(relays, key) {
                None => relays.filter(mine).len() == 0,
                Some(i) => {
                    &&& 0 <= i < relays.len()
                    &&& relays.filter(mine).len() > 0
                    &&& relays.filter(mine)[0] == relays[i]
                    &&& relays.remove(i).filter(mine) == relays.filter(mine).skip(1)
                    &&& other != key ==> relays.remove(i).filter(theirs) == relays.filter(theirs)
                },
            }
        }),
    decreases relays.len(),
{
    let mine = for_chunk(key);
    let theirs = for_chunk(other);
    reveal(Seq::filter);
    if relays.len() > 0 {
        let front = relays.drop_last();
        let last = relays.last();
        the_first_is_answered(front, key, other);
        assert(relays =~= front.push(last));
        one_more_asks(front, last, key);
        one_more_asks(front, last, other);
        match asked_first(front, key) {
            Some(i) => {
                let left = front.remove(i);
                assert(relays.remove(i) =~= left.push(last));
                one_more_asks(left, last, key);
                one_more_asks(left, last, other);
                assert(relays.filter(mine).skip(1) =~= if last.0 == key {
                    front.filter(mine).skip(1).push(last)
                } else {
                    front.filter(mine).skip(1)
                });
            },
            None => {
                if last.0 == key {
                    assert(relays.remove(relays.len() - 1) =~= front);
                    assert(front.filter(mine) =~= seq![]);
                    assert(relays.filter(mine) =~= seq![last]);
                    assert(relays.filter(mine).skip(1) =~= seq![]);
                }
            },
        }
    }
}

/// A request that is passed on is remembered behind those for the same chunk
/// that came before it, and is itself passed on.
pub proof fn a_request_waits_its_turn(
    s: TransferView,
    asker: DeviceId,
    owner: DeviceId,
    key: ChunkKey,
    other: ChunkKey,
)
    requires
        key.id.device != s.me,
        s.source_of(key.id) == Some(owner),
        owner != asker,
    ensures
        ({
            let step = s.step(InputView::FromPeer { from: asker, msg: request(key) });
            &&& step.out == seq![OutputView::Send { to: owner, msg: request(key) }]
            &&& askers(step.after, key) == askers(s, key).push(asker)
            &&& other != key ==> askers(step.after, other) == askers(s, other)
            &&& step.after == (TransferView { relays: step.after.relays, ..s })
        }),
{
    assert(key == ChunkKey { id: key.id, index: key.index, offset: key.offset });
    let step = s.step(InputView::FromPeer { from: asker, msg: request(key) });
    one_more_asks(s.relays, (key, asker), key);
    one_more_asks(s.relays, (key, asker), other);
    assert(askers(step.after, key) =~= askers(s, key).push(asker));
}

/// While machines wait for a chunk through here, each copy of it that comes
/// goes, unchanged, to the one that has waited longest and to nobody else.
pub proof fn a_chunk_goes_back_to_the_one_who_asked(
    s: TransferView,
    from: DeviceId,
    key: ChunkKey,
    other: ChunkKey,
    data: Seq<u8>,
    last: bool,
)
    requires
        askers(s, key).len() > 0,
    ensures
        ({
            let step = s.step(InputView::FromPeer { from, msg: piece(key, data, last) });
            &&& step.out == seq![
                OutputView::Send { to: askers(s, key)[0], msg: piece(key, data, last) },
            ]
            &&& askers(step.after, key) == askers(s, key).skip(1)
            &&& other != key ==> askers(step.after, other) == askers(s, other)
            &&& step.after == (TransferView { relays: step.after.relays, ..s })
        }),
{
    assert(key == ChunkKey { id: key.id, index: key.index, offset: key.offset });
    let step = s.step(InputView::FromPeer { from, msg: piece(key, data, last) });
    the_first_is_answered(s.relays, key, other);
    assert(askers(step.after, key) =~= askers(s, key).skip(1));
}

/// Where two machines ask for the same chunk through another, each gets one
/// that comes, in the order in which they asked; and one more goes nowhere,
/// unless the machine in between asked for it too.
pub proof fn each_of_two_askers_is_answered(
    s: TransferView,
    asker: DeviceId,
    next: DeviceId,
    owner: DeviceId,
    key: ChunkKey,
    data: Seq<u8>,
    last: bool,
)
    requires
        key.id.device != s.me,
        s.source_of(key.id) == Some(owner),
        owner != asker,
        owner != next,
        askers(s, key).len() == 0,
        !(value_of(s.pulling, key.id) == Some(owner) && s.awaiting.contains(key)),
    ensures
        ({
            let comes = InputView::FromPeer { from: owner, msg: piece(key, data, last) };
            let a = s.step(InputView::FromPeer { from: asker, msg: request(key) });
            let b = a.after.step(InputView::FromPeer { from: next, msg: request(key) });
            let first = b.after.step(comes);
            let second = first.after.step(comes);
            &&& a.out == seq![OutputView::Send { to: owner, msg: request(key) }]
            &&& b.out == seq![OutputView::Send { to: owner, msg: request(key) }]
            &&& first.out == seq![OutputView::Send { to: asker, msg: piece(key, data, last) }]
            &&& second.out == seq![OutputView::Send { to: next, msg: piece(key, data, last) }]
            &&& second.after.step(comes) == second.after.still()
        }),
{
    assert(key == ChunkKey { id: key.id, index: key.index, offset: key.offset });
    let comes = InputView::FromPeer { from: owner, msg: piece(key, data, last) };
    let a = s.step(InputView::FromPeer { from: asker, msg: request(key) });
    let b = a.after.step(InputView::FromPeer { from: next, msg: request(key) });
    let first = b.after.step(comes);
    let second = first.after.step(comes);
    a_request_waits_its_turn(s, asker, owner, key, key);
    a_request_waits_its_turn(a.after, next, owner, key, key);
    assert(askers(b.after, key) =~= seq![asker, next]);
    a_chunk_goes_back_to_the_one_who_asked(b.after, owner, key, key, data, last);
    assert(askers(first.after, key) =~= seq![next]);
    a_chunk_goes_back_to_the_one_who_asked(first.after, owner, key, key, data, last);
    assert(askers(second.after, key) =~= seq![]);
    the_first_is_answered(second.after.relays, key, key);
}

/// A machine reads its own files whoever asks, and one whose files are on a
/// machine that is not connected is refused at once.
pub proof fn a_request_is_always_answered_or_passed_on(
    s: TransferView,
    from: DeviceId,
    key: ChunkKey,
)
    ensures
        ({
            let step = s.step(InputView::FromPeer { from, msg: request(key) });
            &&& step.out.len() == 1
            &&& key.id.device == s.me ==> step == (Step {
                after: s,
                out: seq![
                    OutputView::ReadFile {
                        to: from,
                        id: key.id,
                        index: key.index,
                        offset: key.offset,
                    },
                ],
            })
            &&& key.id.device != s.me && s.source_of(key.id) is None ==> step == (Step {
                after: s,
                out: seq![
                    OutputView::Send {
                        to: from,
                        msg: BulkView::FileAbort { id: key.id, reason: not_connected() },
                    },
                ],
            })
        }),
{
    assert(key == ChunkKey { id: key.id, index: key.index, offset: key.offset });
}

/// Only a chunk this machine asked for is handed over, from where it asked,
/// exactly as it came, and once.
pub proof fn only_what_was_asked_for_is_handed_over(
    s: TransferView,
    from: DeviceId,
    key: ChunkKey,
    data: Seq<u8>,
    last: bool,
)
    requires
        askers(s, key).len() == 0,
    ensures
        ({
            let step = s.step(InputView::FromPeer { from, msg: piece(key, data, last) });
            if s.awaiting.contains(key) && value_of(s.pulling, key.id) == Some(from) {
                &&& step.out == seq![
                    OutputView::Chunk {
                        id: key.id,
                        index: key.index,
                        offset: key.offset,
                        data,
                        last,
                    },
                ]
                &&& !step.after.awaiting.contains(key)
            } else {
                step == s.still()
            }
        }),
{
    assert(key == ChunkKey { id: key.id, index: key.index, offset: key.offset });
    the_first_is_answered(s.relays, key, key);
    without_item_filters(s.awaiting, key, |k: ChunkKey| k != key);
    filter_members(s.awaiting, |k: ChunkKey| k != key);
}

/// An abort reaches everyone waiting, each once, with its reason; and then
/// nobody waits for that transfer here any more.
pub proof fn an_abort_reaches_everyone_waiting(
    s: TransferView,
    from: DeviceId,
    id: TransferId,
    reason: Seq<char>,
)
    requires
        keyed(s.pulling),
    ensures
        ({
            let step = s.step(
                InputView::FromPeer { from, msg: BulkView::FileAbort { id, reason } },
            );
            let told = |to: DeviceId| OutputView::Send {
                to,
                msg: BulkView::FileAbort { id, reason },
            };
            &&& forall|e: (ChunkKey, DeviceId)| #[trigger]
                s.relays.contains(e) && e.0.id == id ==> step.out.contains(told(e.1))
            &&& forall|e: (ChunkKey, DeviceId)| #[trigger]
                step.after.relays.contains(e) ==> e.0.id != id
            &&& forall|i: int, j: int|
                0 <= i < j < step.out.len() ==> #[trigger] step.out[i] != #[trigger] step.out[j]
            &&& value_of(s.pulling, id) == Some(from) ==> step.out.contains(
                OutputView::Failed(id),
            ) && value_of(step.after.pulling, id) is None
        }),
{
    let step = s.step(InputView::FromPeer { from, msg: BulkView::FileAbort { id, reason } });
    let told = |to: DeviceId| OutputView::Send { to, msg: BulkView::FileAbort { id, reason } };
    let on_it = |e: (ChunkKey, DeviceId)| e.0.id == id;
    let off_it = |e: (ChunkKey, DeviceId)| e.0.id != id;
    let who = |e: (ChunkKey, DeviceId)| e.1;
    let asked = s.relays.filter(on_it);
    let names = s.waiting_on(id);
    filter_members(s.relays, on_it);
    filter_members(s.relays, off_it);
    in_order_lists_each_once::<DeviceId>(asked.map_values(who));
    assert forall|e: (ChunkKey, DeviceId)| #[trigger]
        s.relays.contains(e) && e.0.id == id implies step.out.contains(told(e.1)) by {
        assert(asked.contains(e));
        let i = choose|i: int| 0 <= i < asked.len() && asked[i] == e;
        assert(asked.map_values(who)[i] == e.1);
        assert(asked.map_values(who).contains(e.1));
        assert(names.contains(e.1));
        let j = choose|j: int| 0 <= j < names.len() && names[j] == e.1;
        assert(step.out[j] == told(e.1));
    }
    assert forall|i: int, j: int| 0 <= i < j < step.out.len() implies #[trigger] step.out[i]
        != #[trigger] step.out[j] by {
        if j < names.len() {
            assert(DeviceId::before(names[i], names[j]));
            DeviceId::nothing_precedes_itself(names[i]);
        }
    }
    if value_of(s.pulling, id) == Some(from) {
        assert(step.out[step.out.len() - 1] == OutputView::Failed(id));
        let other = |e: (TransferId, DeviceId)| e.0 != id;
        erased_filters(s.pulling, id, other);
        filtered_reads_back(s.pulling, other, id);
    }
}

/// Everything awaited belongs to a transfer being pulled, and no transfer is
/// pulled from two machines.
pub open spec fn consistent(s: TransferView) -> bool {
    &&& forall|k: ChunkKey| #[trigger]
        s.awaiting.contains(k) ==> value_of(s.pulling, k.id) is Some
    &&& keyed(s.pulling)
}

proof fn firsts_members<A>(s: Seq<A>)
    ensures
        forall|x: A| #[trigger] firsts(s).contains(x) <==> s.contains(x),
        firsts(s).no_duplicates(),
    decreases s.len(),
{
    if s.len() > 0 {
        let front = s.drop_last();
        let f = firsts(front);
        firsts_members(front);
        assert forall|x: A| #[trigger] firsts(s).contains(x) <==> s.contains(x) by {
            if s.contains(x) {
                let i = choose|i: int| 0 <= i < s.len() && s[i] == x;
                if i < front.len() {
                    assert(front[i] == x);
                    assert(f.contains(x));
                    let k = choose|k: int| 0 <= k < f.len() && f[k] == x;
                    assert(firsts(s)[k] == x);
                } else if !f.contains(s.last()) {
                    assert(firsts(s)[f.len() as int] == x);
                }
            }
            if firsts(s).contains(x) {
                let k = choose|k: int| 0 <= k < firsts(s).len() && firsts(s)[k] == x;
                if k < f.len() {
                    assert(f[k] == x);
                    assert(f.contains(x));
                    let m = choose|m: int| 0 <= m < front.len() && front[m] == x;
                    assert(s[m] == x);
                } else {
                    assert(s[s.len() - 1] == x);
                }
            }
        }
        if !f.contains(s.last()) {
            assert forall|i: int, j: int|
                0 <= i < j < firsts(s).len() implies firsts(s)[i] != firsts(s)[j] by {
                if j == f.len() {
                    assert(f.contains(f[i]));
                }
            }
        }
    }
}

/// A machine that leaves is forgotten altogether, everyone who asked for its
/// files is told, and what was being pulled through it fails.
pub proof fn a_machine_that_leaves_is_forgotten(s: TransferView, peer: DeviceId)
    requires
        consistent(s),
    ensures
        ({
            let step = s.step(InputView::PeerGone(peer));
            let r = step.after;
            &&& consistent(r)
            &&& !r.peers.contains(peer)
            &&& forall|e: (ChunkKey, DeviceId)| #[trigger]
                r.relays.contains(e) ==> e.0.id.device != peer && e.1 != peer
            &&& forall|e: (TransferId, DeviceId)| #[trigger]
                r.pulling.contains(e) ==> e.1 != peer
            &&& forall|e: (ChunkKey, DeviceId)| #[trigger]
                s.relays.contains(e) && e.0.id.device == peer ==> step.out.contains(
                    OutputView::Send {
                        to: e.1,
                        msg: BulkView::FileAbort { id: e.0.id, reason: went_away() },
                    },
                )
            &&& forall|e: (TransferId, DeviceId)| #[trigger]
                s.pulling.contains(e) && e.1 == peer ==> step.out.contains(
                    OutputView::Failed(e.0),
                )
        }),
{
    let step = s.step(InputView::PeerGone(peer));
    let r = step.after;
    without_item_filters(s.peers, peer, |p: DeviceId| p != peer);
    filter_members(s.peers, |p: DeviceId| p != peer);
    filter_members(s.relays, relayed_elsewhere(peer));
    filtering_stays_keyed(s.pulling, pulled_elsewhere(peer));
    filter_members(s.pulling, pulled_through(peer));
    let lost = s.lost(peer);
    filter_members(s.awaiting, of_none_of(lost));
    let of_peer = |e: (ChunkKey, DeviceId)| e.0.id.device == peer;
    let pair = |e: (ChunkKey, DeviceId)| Orphan { id: e.0.id, to: e.1 };
    let asked = s.relays.filter(of_peer);
    filter_members(s.relays, of_peer);
    firsts_members(asked.map_values(pair));
    let orphans = s.orphans(peer);
    assert forall|e: (ChunkKey, DeviceId)| #[trigger]
        s.relays.contains(e) && e.0.id.device == peer implies step.out.contains(
        OutputView::Send {
            to: e.1,
            msg: BulkView::FileAbort { id: e.0.id, reason: went_away() },
        },
    ) by {
        assert(asked.contains(e));
        let i = choose|i: int| 0 <= i < asked.len() && asked[i] == e;
        assert(asked.map_values(pair)[i] == Orphan { id: e.0.id, to: e.1 });
        assert(asked.map_values(pair).contains(Orphan { id: e.0.id, to: e.1 }));
        assert(orphans.contains(Orphan { id: e.0.id, to: e.1 }));
        let j = choose|j: int|
            0 <= j < orphans.len() && orphans[j] == (Orphan { id: e.0.id, to: e.1 });
        assert(step.out[j] == OutputView::Send {
            to: e.1,
            msg: BulkView::FileAbort { id: e.0.id, reason: went_away() },
        });
    }
    assert forall|e: (TransferId, DeviceId)| #[trigger]
        s.pulling.contains(e) && e.1 == peer implies step.out.contains(OutputView::Failed(e.0)) by {
        let over = s.pulling.filter(pulled_through(peer));
        assert(over.contains(e));
        let i = choose|i: int| 0 <= i < over.len() && over[i] == e;
        assert(lost[i] == e.0);
        assert(step.out[orphans.len() + i] == OutputView::Failed(e.0));
    }
    assert forall|k: ChunkKey| #[trigger] r.awaiting.contains(k) implies value_of(r.pulling, k.id)
        is Some by {
        assert(s.awaiting.contains(k));
        filtered_reads_back(s.pulling, pulled_elsewhere(peer), k.id);
        value_of_finds(s.pulling, k.id);
        let source = value_of(s.pulling, k.id)->0;
        if source == peer {
            let over = s.pulling.filter(pulled_through(peer));
            assert(over.contains((k.id, source)));
            let i = choose|i: int| 0 <= i < over.len() && over[i] == (k.id, source);
            assert(lost[i] == k.id);
            assert(lost.contains(k.id));
        }
    }
}

/// Whatever happens, everything awaited belongs to a transfer being pulled.
pub proof fn consistency_is_kept(s: TransferView, input: InputView)
    requires
        consistent(s),
    ensures
        consistent(s.step(input).after),
{
    match input {
        InputView::PeerUp(peer) => {
        },
        InputView::PeerGone(peer) => {
            a_machine_that_leaves_is_forgotten(s, peer);
        },
        InputView::FromPeer { from, msg } => {
            match msg {
                BulkView::FileRequest { id, index, offset } => {
                },
                BulkView::FileChunk { id, index, offset, data, last } => {
                    let key = ChunkKey { id, index, offset };
                    without_item_filters(s.awaiting, key, |k: ChunkKey| k != key);
                    filter_members(s.awaiting, |k: ChunkKey| k != key);
                },
                BulkView::FileAbort { id, reason } => {
                    let off_it = |e: (ChunkKey, DeviceId)| e.0.id != id;
                    ending_a_pull(TransferView { relays: s.relays.filter(off_it), ..s }, id);
                },
                _ => {
                },
            }
        },
        InputView::Pull { id, index, offset } => {
            let key = ChunkKey { id, index, offset };
            if let Some(source) = s.source_of(id) {
                stored_stays_keyed(s.pulling, id, source);
                let r = s.step(input).after;
                assert forall|k: ChunkKey| #[trigger] r.awaiting.contains(k) implies value_of(
                    r.pulling,
                    k.id,
                ) is Some by {
                    stored_reads_back(s.pulling, id, source, k.id);
                    let i = choose|i: int| 0 <= i < r.awaiting.len() && r.awaiting[i] == k;
                    if i < s.awaiting.len() {
                        assert(s.awaiting[i] == k);
                        assert(s.awaiting.contains(k));
                    }
                }
            }
        },
        InputView::Drop(id) => {
            ending_a_pull(s, id);
        },
    }
}

proof fn ending_a_pull(s: TransferView, id: TransferId)
    requires
        consistent(s),
    ensures
        consistent(s.pull_over(id)),
{
    let other = |e: (TransferId, DeviceId)| e.0 != id;
    erased_filters(s.pulling, id, other);
    filtering_stays_keyed(s.pulling, other);
    filter_members(s.awaiting, |k: ChunkKey| k.id != id);
    assert forall|k: ChunkKey| #[trigger] s.pull_over(id).awaiting.contains(k) implies value_of(
        s.pull_over(id).pulling,
        k.id,
    ) is Some by {
        filtered_reads_back(s.pulling, other, k.id);
    }
}

} // verus!
