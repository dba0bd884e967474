//! What carrying files is for: what was copied on one machine lands, whole, on
//! the one it was pasted on.

use vstd::prelude::*;

use crate::exchange;
use crate::landing::{landing_plan, refusal};
use crate::layout::DeviceId;
use crate::proto::{BulkView, ClipError, ClipSeq, FileOfferView, FormatView, TransferId};
use crate::sharing::{find_offered, kept, reason, Doing, EffectView, IncomingView, SharingView};
use crate::control::Role;
use crate::survey::OfferedView;
use crate::table::{
    erased_filters, filter_members, filtered_reads_back, keyed, stored_reads_back, value_of,
    with_item_keeps_order,
};
use crate::transfer;
use crate::transfer::{
    of_none_of, pulled_elsewhere, pulled_through, relayed_elsewhere, ChunkKey, TransferView,
};

verus! {

// --- asking for pieces ------------------------------------------------------------

/// The machine that is asked for a piece: the server, on a client; and on a
/// server the machine whose transfer it is, while it is connected.
pub open spec fn is_asked(s: TransferView, id: TransferId, source: DeviceId) -> bool {
    if s.hub is Some {
        source == s.hub->0
    } else {
        source == id.device && s.peers.contains(id.device)
    }
}

/// A piece that is wanted here is asked for, by its transfer, its number and
/// where it begins, of the machine it can be had through, and is waited for; and
/// where there is none the transfer has failed.
pub proof fn a_wanted_piece_is_asked_for(
    s: TransferView,
    id: TransferId,
    index: u32,
    offset: u64,
    source: DeviceId,
    other: TransferId,
)
    ensures
        ({
            let step = s.step(transfer::InputView::Pull { id, index, offset });
            let key = ChunkKey { id, index, offset };
            &&& is_asked(s, id, source) ==> {
                &&& step.out == seq![
                    transfer::OutputView::Send {
                        to: source,
                        msg: BulkView::FileRequest { id, index, offset },
                    },
                ]
                &&& step.after.awaiting.contains(key)
                &&& forall|k: ChunkKey| #[trigger]
                    step.after.awaiting.contains(k) <==> s.awaiting.contains(k) || k == key
                &&& value_of(step.after.pulling, id) == Some(source)
                &&& other != id ==> value_of(step.after.pulling, other) == value_of(
                    s.pulling,
                    other,
                )
                &&& step.after.relays == s.relays
            }
            &&& s.hub is None && !s.peers.contains(id.device) ==> step.after == s && step.out
                == seq![transfer::OutputView::Failed(id)]
        }),
{
    let key = ChunkKey { id, index, offset };
    stored_reads_back(s.pulling, id, source, id);
    stored_reads_back(s.pulling, id, source, other);
    let more = s.awaiting.push(key);
    assert(more[more.len() - 1] == key);
    assert forall|k: ChunkKey| #[trigger] more.contains(k) <==> s.awaiting.contains(k) || k == key by {
        if s.awaiting.contains(k) {
            let i = choose|i: int| 0 <= i < s.awaiting.len() && s.awaiting[i] == k;
            assert(more[i] == k);
        }
    }
}

/// A request from another machine goes on to the machine it can be had through,
/// as it is, and is remembered for the one that asked; where there is none, or
/// that is the one that asked, it is told so. This machine's own files it reads.
pub proof fn a_request_goes_on(
    s: TransferView,
    from: DeviceId,
    id: TransferId,
    index: u32,
    offset: u64,
    source: DeviceId,
)
    ensures
        ({
            let msg = BulkView::FileRequest { id, index, offset };
            let step = s.step(transfer::InputView::FromPeer { from, msg });
            &&& id.device == s.me ==> step.after == s && step.out == seq![
                transfer::OutputView::ReadFile { to: from, id, index, offset },
            ]
            &&& id.device != s.me && is_asked(s, id, source) && source != from ==> step.out == seq![
                transfer::OutputView::Send { to: source, msg },
            ] && step.after.relays == s.relays.push((ChunkKey { id, index, offset }, from))
            &&& id.device != s.me && (is_asked(s, id, from) || s.hub is None && !s.peers.contains(
                id.device,
            )) ==> step.after == s && step.out == seq![
                transfer::OutputView::Send {
                    to: from,
                    msg: BulkView::FileAbort {
                        id,
                        reason: "the machine holding the files is not connected here"@,
                    },
                },
            ]
        }),
{
}

/// A machine whose link comes up can be asked from then on, and nothing else
/// comes of it.
pub proof fn a_newcomer_can_be_asked(s: TransferView, peer: DeviceId, other: DeviceId)
    requires
        crate::table::ascending::<DeviceId>(s.peers),
    ensures
        ({
            let step = s.step(transfer::InputView::PeerUp(peer));
            &&& step.out.len() == 0
            &&& step.after.peers.contains(other) == (s.peers.contains(other) || other == peer)
            &&& step.after == (TransferView { peers: step.after.peers, ..s })
        }),
{
    with_item_keeps_order::<DeviceId>(s.peers, peer);
}

/// A transfer nobody here wants any more is waited for no more; the others are.
pub proof fn a_dropped_transfer_is_waited_for_no_more(s: TransferView, id: TransferId, other: ChunkKey)
    requires
        keyed(s.pulling),
    ensures
        ({
            let step = s.step(transfer::InputView::Drop(id));
            &&& step.out.len() == 0
            &&& value_of(step.after.pulling, id) is None
            &&& other.id != id ==> value_of(step.after.pulling, other.id) == value_of(
                s.pulling,
                other.id,
            )
            &&& step.after.awaiting.contains(other) == (s.awaiting.contains(other) && other.id
                != id)
            &&& step.after.relays == s.relays
            &&& step.after.peers == s.peers
        }),
{
    let mine = |e: (TransferId, DeviceId)| e.0 != id;
    erased_filters(s.pulling, id, mine);
    filtered_reads_back(s.pulling, mine, id);
    filtered_reads_back(s.pulling, mine, other.id);
    crate::table::value_of_finds(s.pulling, id);
    crate::table::value_of_finds(s.pulling, other.id);
    filter_members(s.awaiting, |k: ChunkKey| k.id != id);
}

/// An abort touches only the transfer that it names.
pub proof fn an_abort_leaves_other_transfers_alone(
    s: TransferView,
    from: DeviceId,
    id: TransferId,
    why: Seq<char>,
    other: ChunkKey,
    asker: DeviceId,
)
    requires
        keyed(s.pulling),
        other.id != id,
    ensures
        ({
            let msg = BulkView::FileAbort { id, reason: why };
            let step = s.step(transfer::InputView::FromPeer { from, msg });
            &&& step.after.relays.contains((other, asker)) == s.relays.contains((other, asker))
            &&& value_of(step.after.pulling, other.id) == value_of(s.pulling, other.id)
            &&& step.after.awaiting.contains(other) == s.awaiting.contains(other)
            &&& step.after.peers == s.peers
            &&& value_of(s.pulling, id) != Some(from) ==> step.after.pulling == s.pulling
                && step.after.awaiting == s.awaiting && !step.out.contains(
                transfer::OutputView::Failed(id),
            )
        }),
{
    let mine = |e: (TransferId, DeviceId)| e.0 != id;
    erased_filters(s.pulling, id, mine);
    filtered_reads_back(s.pulling, mine, other.id);
    crate::table::value_of_finds(s.pulling, other.id);
    filter_members(s.awaiting, |k: ChunkKey| k.id != id);
    filter_members(s.relays, |e: (ChunkKey, DeviceId)| e.0.id != id);
}

/// A machine that leaves takes nothing with it but what went through it: every
/// other request, pull and awaited piece is as it was.
pub proof fn a_machine_that_leaves_takes_nothing_else(
    s: TransferView,
    peer: DeviceId,
    key: ChunkKey,
    asker: DeviceId,
    other: DeviceId,
)
    requires
        keyed(s.pulling),
    ensures
        ({
            let r = s.step(transfer::InputView::PeerGone(peer)).after;
            &&& r.relays.contains((key, asker)) == (s.relays.contains((key, asker))
                && key.id.device != peer && asker != peer)
            &&& value_of(s.pulling, key.id) is Some && value_of(s.pulling, key.id)->0 != peer
                ==> value_of(r.pulling, key.id) == value_of(s.pulling, key.id)
                && r.awaiting.contains(key) == s.awaiting.contains(key)
            &&& r.peers.contains(other) == (s.peers.contains(other) && other != peer)
            &&& r.hub == s.hub
        }),
{
    filter_members(s.relays, relayed_elsewhere(peer));
    crate::table::without_item_filters(s.peers, peer, |p: DeviceId| p != peer);
    filter_members(s.peers, |p: DeviceId| p != peer);
    if value_of(s.pulling, key.id) is Some && value_of(s.pulling, key.id)->0 != peer {
        filtered_reads_back(s.pulling, pulled_elsewhere(peer), key.id);
        crate::table::value_of_finds(s.pulling, key.id);
        filter_members(s.awaiting, of_none_of(s.lost(peer)));
        let through = s.pulling.filter(pulled_through(peer));
        filter_members(s.pulling, pulled_through(peer));
        if s.lost(peer).contains(key.id) {
            let i = choose|i: int| 0 <= i < s.lost(peer).len() && s.lost(peer)[i] == key.id;
            assert(through.contains(through[i]));
            let e = through[i];
            let j = choose|j: int| 0 <= j < s.pulling.len() && s.pulling[j] == e;
            crate::table::entry_is_found(s.pulling, j);
        }
    }
}

/// What moving files is told, and what it wants done, is seen as it is.
pub proof fn a_transfer_is_seen_as_it_is(input: transfer::Input, output: transfer::Output)
    ensures
        match input {
            transfer::Input::PeerUp(p) => input.deep_view() is PeerUp && input.deep_view()->PeerUp_0
                == p,
            transfer::Input::PeerGone(p) => input.deep_view() is PeerGone
                && input.deep_view()->PeerGone_0 == p,
            transfer::Input::FromPeer { from, msg } => input.deep_view() is FromPeer
                && input.deep_view()->from == from && input.deep_view()->msg == msg.deep_view(),
            transfer::Input::Pull { id, index, offset } => input.deep_view() is Pull
                && input.deep_view()->id == id && input.deep_view()->index == index
                && input.deep_view()->offset == offset,
            transfer::Input::Drop(id) => input.deep_view() is Drop && input.deep_view()->Drop_0
                == id,
        },
        match output {
            transfer::Output::Send { to, msg } => output.deep_view() is Send
                && output.deep_view()->Send_to == to && output.deep_view()->msg == msg.deep_view(),
            transfer::Output::ReadFile { to, id, index, offset } => output.deep_view() is ReadFile
                && output.deep_view()->ReadFile_to == to && output.deep_view()->ReadFile_id == id
                && output.deep_view()->ReadFile_index == index
                && output.deep_view()->ReadFile_offset == offset,
            transfer::Output::Chunk { id, index, offset, data, last } => output.deep_view()
                is Chunk && output.deep_view()->Chunk_id == id && output.deep_view()->Chunk_index
                == index && output.deep_view()->Chunk_offset == offset && output.deep_view()->data
                == data@ && output.deep_view()->last == last,
            transfer::Output::Failed(id) => output.deep_view() is Failed
                && output.deep_view()->Failed_0 == id,
        },
{
}

// --- files landing -----------------------------------------------------------------

/// What is made for an entry of a manifest: a folder or a file, under its path.
pub open spec fn is_begun(e: EffectView, offer: FileOfferView, paths: Seq<Seq<Seq<char>>>, i: int) -> bool {
    if offer.files[i].is_dir {
        e == (EffectView::MakeFolder { path: paths[i] })
    } else {
        e == (EffectView::MakeFile { path: paths[i] })
    }
}

/// Files that are wanted and can be had are begun with the first, in the places
/// that were planned, for whoever wants them; and otherwise whoever pasted is
/// told why not.
pub proof fn wanted_files_are_begun(
    s: SharingView,
    offer: FileOfferView,
    paste: Option<u64>,
    present: Seq<Seq<char>>,
)
    ensures
        ({
            let step = s.begin_pull(offer, paste, present);
            let plan = landing_plan(offer, present, s.files_max);
            let taken = s.files_enabled && s.incoming is None && plan is Ok;
            let why = if !s.files_enabled {
                "file transfer is turned off here"@
            } else if s.incoming is Some {
                "another set of files is still arriving; try again when it has"@
            } else {
                "refusing the files: "@ + refusal(plan->Err_0)
            };
            &&& taken ==> {
                let incoming = step.after.incoming->0;
                &&& step.after.incoming is Some
                &&& incoming.offer == offer
                &&& incoming.landing == plan->Ok_0
                &&& incoming.paste == paste
                &&& incoming.index == 0
                &&& incoming.current is None
                &&& step.out.len() == 1
                &&& is_begun(step.out[0], offer, plan->Ok_0.paths, 0)
            }
            &&& !taken ==> step.after == s
            &&& !taken && paste is Some ==> step.out == seq![
                EffectView::Refuse { paste: paste->0, why },
            ]
            &&& !taken && paste is None ==> step.out.len() == 0
        }),
{
}

/// Whether the only thing done is to ask for a piece.
pub open spec fn asks_for(s: SharingView, out: Seq<EffectView>, id: TransferId, index: int, offset: int) -> bool {
    &&& out.len() == 1
    &&& out[0] is Send
    &&& is_asked(s.transfer, id, out[0]->Send_to)
    &&& out[0]->msg is FileRequest
    &&& out[0]->msg->FileRequest_id == id
    &&& out[0]->msg->FileRequest_index == index
    &&& out[0]->msg->FileRequest_offset == offset
}

proof fn asking(s: SharingView, source: DeviceId)
    requires
        s.incoming is Some,
        s.incoming->0.current is Some,
        0 <= s.incoming->0.index <= u32::MAX,
        is_asked(s.transfer, s.incoming->0.offer.id, source),
    ensures
        s.ask().after.incoming == s.incoming,
        asks_for(
            s,
            s.ask().out,
            s.incoming->0.offer.id,
            s.incoming->0.index,
            s.incoming->0.current->0 as int,
        ),
{
    let incoming = s.incoming->0;
    let input = transfer::InputView::Pull {
        id: incoming.offer.id,
        index: incoming.index as u32,
        offset: incoming.current->0,
    };
    let step = s.transfer.step(input);
    let told = SharingView { transfer: step.after, ..s };
    assert(step.out.len() == 1);
    assert(told.settle(step.out.drop_last()) == told.still());
    assert(told.settle(step.out).out =~= told.settle_one(step.out[0]).out);
}

/// A file that has been made is filled from its beginning; one with nothing in
/// it is finished as it is.
pub proof fn a_file_is_filled_from_its_beginning(s: SharingView, source: DeviceId)
    requires
        s.incoming is Some,
        s.incoming->0.sound(),
        s.incoming->0.doing == Doing::MakingFile,
        is_asked(s.transfer, s.incoming->0.offer.id, source),
    ensures
        ({
            let incoming = s.incoming->0;
            let step = s.disk_done();
            let bytes = incoming.offer.files[incoming.index].bytes;
            &&& bytes == 0 ==> step.out == seq![
                EffectView::Finish { path: incoming.landing.paths[incoming.index] },
            ]
            &&& bytes > 0 ==> asks_for(s, step.out, incoming.offer.id, incoming.index, 0)
                && step.after.incoming == Some(
                IncomingView { current: Some(0), doing: Doing::Nothing, ..incoming },
            )
        }),
{
    let incoming = s.incoming->0;
    let begun = SharingView {
        incoming: Some(IncomingView { current: Some(0), doing: Doing::Nothing, ..incoming }),
        ..s
    };
    if incoming.offer.files[incoming.index].bytes > 0 {
        asking(begun, source);
    }
}

/// Once a piece is written, the next is asked for where it ends; the last one
/// finishes the file if that makes it as long as it was said to be; and if it
/// does not, or the file grows longer, the pull is over: what was written of it
/// is taken away, and whoever pasted is told.
pub proof fn a_written_piece_is_followed_up(s: SharingView, source: DeviceId)
    requires
        s.incoming is Some,
        s.incoming->0.sound(),
        s.incoming->0.doing is Writing,
        is_asked(s.transfer, s.incoming->0.offer.id, source),
    ensures
        ({
            let incoming = s.incoming->0;
            let step = s.disk_done();
            let bytes = incoming.offer.files[incoming.index].bytes;
            let path = incoming.landing.paths[incoming.index];
            let written = incoming.current->0 + incoming.doing->len;
            let last = incoming.doing->last;
            let removed = EffectView::Remove { path };
            let why = if written > bytes {
                "a file arrived larger than it was said to be"@
            } else {
                "a file arrived shorter than it was said to be"@
            };
            &&& written <= bytes && !last ==> asks_for(
                s,
                step.out,
                incoming.offer.id,
                incoming.index,
                written,
            ) && step.after.incoming == Some(
                IncomingView { current: Some(written as u64), doing: Doing::Nothing, ..incoming },
            )
            &&& written == bytes && last ==> step.out == seq![EffectView::Finish { path }]
                && step.after.incoming is Some && step.after.incoming->0.index == incoming.index
                && step.after.incoming->0.current is None
            &&& written > bytes || last && written != bytes ==> {
                &&& step.after.incoming is None
                &&& incoming.paste is None ==> step.out == seq![removed]
                &&& incoming.paste is Some ==> step.out == seq![
                    removed,
                    EffectView::Refuse { paste: incoming.paste->0, why },
                ]
            }
        }),
{
    let incoming = s.incoming->0;
    let written = (incoming.current->0 + incoming.doing->len) as u64;
    let wrote = SharingView {
        incoming: Some(IncomingView { current: Some(written), doing: Doing::Nothing, ..incoming }),
        ..s
    };
    asking(wrote, source);
}

/// When an entry is done with, the next one is begun, in its place; and after
/// the last one, whoever wanted the files is handed their top-level names.
pub proof fn one_entry_after_another(s: SharingView)
    requires
        s.incoming is Some,
        s.incoming->0.sound(),
        s.incoming->0.doing == Doing::MakingFolder || s.incoming->0.doing == Doing::Finishing
            || s.incoming->0.doing == Doing::FinishingEmpty,
    ensures
        ({
            let incoming = s.incoming->0;
            let step = s.disk_done();
            let next = incoming.index + 1;
            &&& next < incoming.offer.files.len() ==> {
                &&& step.out.len() == 1
                &&& is_begun(step.out[0], incoming.offer, incoming.landing.paths, next)
                &&& step.after.incoming is Some
                &&& step.after.incoming->0.index == next
                &&& step.after.incoming->0.current is None
                &&& step.after.incoming->0.offer == incoming.offer
                &&& step.after.incoming->0.landing == incoming.landing
                &&& step.after.incoming->0.paste == incoming.paste
            }
            &&& next == incoming.offer.files.len() ==> {
                &&& step.after.incoming is None
                &&& step.out == seq![
                    EffectView::Landed {
                        paste: incoming.paste,
                        top_level: incoming.landing.top_level,
                    },
                ]
            }
        }),
{
}

/// A piece that is waited for is written as it came; one that does not follow on
/// ends the pull; and one of another transfer or another file is nothing.
pub proof fn a_piece_that_is_waited_for_is_written(
    s: SharingView,
    id: TransferId,
    index: u32,
    offset: u64,
    data: Seq<u8>,
    last: bool,
)
    requires
        s.incoming is Some,
        data.len() <= usize::MAX,
    ensures
        ({
            let incoming = s.incoming->0;
            let step = s.settle_one(
                transfer::OutputView::Chunk { id, index, offset, data, last },
            );
            let expected = incoming.offer.id == id && incoming.index == index && incoming.current
                is Some && incoming.doing == Doing::Nothing;
            &&& expected && incoming.current == Some(offset) && offset + data.len() <= u64::MAX
                ==> step.out == seq![EffectView::Write { data }] && step.after.incoming == Some(
                IncomingView {
                    doing: Doing::Writing { len: data.len() as usize, last },
                    ..incoming
                },
            )
            &&& expected && incoming.current != Some(offset) ==> step.after.incoming is None
                && step.out.len() > 0 && step.out[0] == (EffectView::Remove {
                path: incoming.landing.paths[incoming.index],
            })
            &&& !expected ==> step.after == s && step.out.len() == 0
        }),
{
}

/// What the disk would not do ends the pull, with what was half written taken
/// away and the reason passed on.
pub proof fn a_disk_that_fails_ends_the_pull(s: SharingView, shown: Seq<char>, error: Seq<char>)
    requires
        s.incoming is Some,
        s.incoming->0.doing != Doing::Nothing,
    ensures
        ({
            let incoming = s.incoming->0;
            let step = s.disk_failed(shown, error);
            let what = match incoming.doing {
                Doing::Writing { len, last } => "could not write the arriving file: "@,
                Doing::Finishing => "could not finish writing a file: "@,
                Doing::FinishingEmpty => "could not write "@ + shown + ": "@,
                _ => "could not create "@ + shown + ": "@,
            };
            let removed: Seq<EffectView> = if incoming.current is Some {
                seq![EffectView::Remove { path: incoming.landing.paths[incoming.index] }]
            } else {
                seq![]
            };
            &&& step.after.incoming is None
            &&& incoming.paste is None ==> step.out == removed
            &&& incoming.paste is Some ==> step.out == removed.push(
                EffectView::Refuse { paste: incoming.paste->0, why: what + error },
            )
        }),
{
}

// --- files going out ------------------------------------------------------------------

/// The first of the manifests on offer under a name is the one that is found.
pub proof fn the_manifest_is_found_by_its_name(offered: Seq<OfferedView>, id: TransferId, i: int)
    requires
        0 <= i <= offered.len(),
        forall|j: int| 0 <= j < i ==> (#[trigger] offered[j]).offer.id != id,
        i < offered.len() ==> offered[i].offer.id == id,
    ensures
        find_offered(offered, id) == (if i < offered.len() {
            Some(offered[i])
        } else {
            None
        }),
    decreases i,
{
    if 0 < i {
        assert(offered[0].offer.id != id);
        let rest = offered.skip(1);
        assert forall|j: int| 0 <= j < i - 1 implies (#[trigger] rest[j]).offer.id != id by {
            assert(rest[j] == offered[j + 1]);
        }
        the_manifest_is_found_by_its_name(rest, id, i - 1);
    }
}

/// A piece that another machine asks this one for is read from where the file
/// is, for that machine, from where it asked; and what is not on offer, is not
/// in the manifest or is a folder is refused, each in its own words.
pub proof fn a_piece_on_offer_is_read(
    s: SharingView,
    to: DeviceId,
    id: TransferId,
    index: u32,
    offset: u64,
    i: int,
)
    requires
        0 <= i <= s.offered.len(),
        forall|j: int| 0 <= j < i ==> (#[trigger] s.offered[j]).offer.id != id,
        i < s.offered.len() ==> s.offered[i].offer.id == id && s.offered[i].places.len()
            == s.offered[i].offer.files.len(),
    ensures
        ({
            let step = s.settle_one(transfer::OutputView::ReadFile { to, id, index, offset });
            let gone = i == s.offered.len();
            let count = s.offered[i].offer.files.len();
            let why = if gone {
                "those files are no longer on offer"@
            } else if index >= count {
                "no such file in that copy"@
            } else {
                "that entry is a folder"@
            };
            &&& step.after == s
            &&& !gone && index < count && !s.offered[i].offer.files[index as int].is_dir
                ==> step.out == seq![
                EffectView::ReadPiece {
                    to,
                    id,
                    index,
                    offset,
                    place: s.offered[i].places[index as int],
                },
            ]
            &&& gone || index >= count || s.offered[i].offer.files[index as int].is_dir
                ==> step.out == seq![
                EffectView::Send { to, msg: BulkView::FileAbort { id, reason: why } },
            ]
        }),
{
    the_manifest_is_found_by_its_name(s.offered, id, i);
}

/// The last four manifests are kept, newest last: the fifth pushes the oldest
/// out.
pub proof fn the_oldest_manifest_goes(offered: Seq<OfferedView>, new: OfferedView)
    ensures
        offered.len() < 4 ==> kept(offered.push(new)) == offered.push(new),
        offered.len() == 4 ==> kept(offered.push(new)) == offered.skip(1).push(new),
{
    assert(offered.len() == 4 ==> offered.push(new).skip(1) =~= offered.skip(1).push(new));
}

// --- the clipboard here ------------------------------------------------------------------

/// What sharing the clipboard wants done is done as it is: messages are sent,
/// an offer is put on the clipboard, a paste is answered; except that a machine
/// without a clipboard has nothing to put there, and that what was wanted for a
/// drop is taken apart, not pasted.
pub proof fn what_the_clipboard_wants_is_done(
    s: SharingView,
    to: DeviceId,
    msg: BulkView,
    seq: ClipSeq,
    formats: Seq<FormatView>,
    format: FormatView,
    ticket: u64,
    result: Result<Seq<u8>, ClipError>,
)
    ensures
        s.apply_one(exchange::OutputView::Send { to, msg }).out == seq![EffectView::Send { to, msg }],
        s.apply_one(exchange::OutputView::Send { to, msg }).after == s,
        s.live && s.files_enabled ==> s.apply_one(
            exchange::OutputView::OfferLocally { seq, formats },
        ).out == seq![EffectView::Offer { seq, formats }],
        !s.live ==> s.apply_one(exchange::OutputView::OfferLocally { seq, formats }).out.len() == 0,
        s.live ==> s.apply_one(exchange::OutputView::ReleaseLocally).out == seq![
            EffectView::Release,
        ],
        !s.live ==> s.apply_one(exchange::OutputView::ReleaseLocally).out.len() == 0,
        !s.drop_tickets.contains(ticket) ==> s.apply_one(
            exchange::OutputView::Deliver { ticket, result },
        ).out == seq![EffectView::Answer { ticket, result }],
        s.drop_tickets.contains(ticket) && result is Ok ==> s.apply_one(
            exchange::OutputView::Deliver { ticket, result },
        ).out == seq![EffectView::Unpack { bytes: result->Ok_0 }],
        s.drop_tickets.contains(ticket) && result is Err ==> s.apply_one(
            exchange::OutputView::Deliver { ticket, result },
        ).out.len() == 0,
        ({
            let made_here = format == FormatView::Uris && value_of(s.synthetic, seq) is Some;
            let out = s.apply_one(exchange::OutputView::ReadLocal { seq, format }).out;
            &&& made_here ==> out == seq![
                EffectView::Queue { seq, format, result: Ok(value_of(s.synthetic, seq)->0) },
            ]
            &&& !made_here && s.live ==> out == seq![EffectView::Read { seq, format }]
            &&& !made_here && !s.live ==> out == seq![
                EffectView::Queue { seq, format, result: Err(ClipError::OwnerRefused) },
            ]
        }),
{
}

/// With files turned off, what else was copied is still offered here, and only
/// the files are left out.
pub proof fn without_files_the_rest_is_offered(
    s: SharingView,
    seq: ClipSeq,
    formats: Seq<FormatView>,
    f: FormatView,
)
    requires
        s.live,
        !s.files_enabled,
        formats.contains(f),
        f != FormatView::Uris,
    ensures
        ({
            let out = s.apply_one(exchange::OutputView::OfferLocally { seq, formats }).out;
            &&& out.len() == 1
            &&& out[0] is Offer
            &&& out[0]->Offer_seq == seq
            &&& forall|g: FormatView| #[trigger]
                out[0]->Offer_formats.contains(g) <==> formats.contains(g) && g != FormatView::Uris
        }),
{
    filter_members(formats, crate::sharing::not_files());
    assert(formats.filter(crate::sharing::not_files()).contains(f));
}

proof fn applying_one(s: SharingView, outputs: Seq<exchange::OutputView>)
    requires
        outputs.len() == 1,
    ensures
        s.apply(outputs).after == s.apply_one(outputs[0]).after,
        s.apply(outputs).out == s.apply_one(outputs[0]).out,
{
    assert(s.apply(outputs.drop_last()) == s.still());
    assert(s.apply(outputs).out =~= s.apply_one(outputs[0]).out);
}

/// A paste of what is at hand is answered with it, under a number of its own;
/// and one of what is on another machine asks that machine for it.
pub proof fn a_paste_here_is_answered(
    s: SharingView,
    seq: ClipSeq,
    format: FormatView,
    now: u64,
    contents: Seq<u8>,
)
    requires
        s.next_ticket < u64::MAX,
        !s.drop_tickets.contains(s.next_ticket),
    ensures
        ({
            let key = crate::proto::KeyView { seq, format };
            let step = s.wanted(seq, format, now);
            let held = s.exchange.remote;
            &&& step.after.next_ticket == s.next_ticket + 1
            &&& value_of(s.exchange.cache, key) == Some(contents) ==> step.out == seq![
                EffectView::Answer { ticket: s.next_ticket, result: Ok(contents) },
            ]
            &&& value_of(s.exchange.cache, key) is None && value_of(s.exchange.fetching, key)
                is None && held is Some && held->0.seq == seq && held->0.formats.contains(format)
                ==> step.out == seq![
                EffectView::Send {
                    to: held->0.from,
                    msg: BulkView::ClipRequest { seq, format, offset: 0 },
                },
            ]
        }),
{
    let key = crate::proto::KeyView { seq, format };
    let input = exchange::InputView::Wanted { ticket: s.next_ticket, seq, format };
    let step = s.exchange.step(input, now);
    let ready = SharingView {
        next_ticket: (s.next_ticket + 1) as u64,
        exchange: step.after,
        ..s
    };
    crate::copy_laws::a_paste_is_dealt_with(s.exchange, s.next_ticket, seq, format, now);
    assert(step.out.len() <= 1);
    if step.out.len() == 1 {
        applying_one(ready, step.out);
    }
    clipboard_keeps_count(ready, step.out);
}

proof fn clipboard_keeps_count(s: SharingView, outputs: Seq<exchange::OutputView>)
    ensures
        s.apply(outputs).after.next_ticket == s.next_ticket,
        s.apply(outputs).after.pending_drop == s.pending_drop,
        s.apply(outputs).after.synthetic == s.synthetic,
        s.apply(outputs).after.offered == s.offered,
        s.apply(outputs).after.exchange == s.exchange,
        s.apply(outputs).after.transfer == s.transfer,
    decreases outputs.len(),
{
    if outputs.len() > 0 {
        clipboard_keeps_count(s, outputs.drop_last());
    }
}

/// What the cursor carries here is wanted at once if its offer is here, and
/// remembered until it comes if it is not.
pub proof fn what_the_cursor_carries_is_wanted(s: SharingView, seq: ClipSeq, now: u64)
    requires
        s.files_enabled,
        s.next_ticket < u64::MAX,
    ensures
        ({
            let step = s.drop_here(seq, now);
            let held = s.exchange.remote;
            let here = held is Some && held->0.seq == seq;
            &&& !here ==> step.after == (SharingView { pending_drop: Some(seq), ..s })
                && step.out.len() == 0
            &&& here ==> step.after.pending_drop is None && step.after.next_ticket == s.next_ticket
                + 1
        }),
{
    let ready = SharingView {
        pending_drop: None,
        next_ticket: (s.next_ticket + 1) as u64,
        drop_tickets: if s.drop_tickets.contains(s.next_ticket) {
            s.drop_tickets
        } else {
            s.drop_tickets.push(s.next_ticket)
        },
        ..s
    };
    let input = exchange::InputView::Wanted {
        ticket: s.next_ticket,
        seq,
        format: FormatView::Uris,
    };
    let step = s.exchange.step(input, now);
    clipboard_keeps_count(SharingView { exchange: step.after, ..ready }, step.out);
}

/// A client fetches every file through the server it is connected to; a server
/// has nobody to go through.
pub proof fn a_client_goes_through_its_server(s: SharingView, peer: DeviceId, now: u64)
    requires
        crate::table::ascending::<DeviceId>(s.transfer.peers),
    ensures
        s.role == Role::Client ==> s.peer_up(peer, now).after.transfer.hub == Some(peer),
        s.role == Role::Server ==> s.peer_up(peer, now).after.transfer.hub == s.transfer.hub,
        s.peer_up(peer, now).after.transfer.peers.contains(peer),
        s.peer_up(peer, now).after.exchange == s.exchange.step(
            exchange::InputView::PeerUp(peer),
            now,
        ).after,
{
    let ready = if s.role == Role::Client {
        SharingView { transfer: TransferView { hub: Some(peer), ..s.transfer }, ..s }
    } else {
        s
    };
    let up = transfer::InputView::PeerUp(peer);
    with_item_keeps_order::<DeviceId>(ready.transfer.peers, peer);
    let files = ready.transferred(up);
    assert(ready.transfer.step(up).out.len() == 0);
    let step = files.after.exchange.step(exchange::InputView::PeerUp(peer), now);
    clipboard_keeps_count(SharingView { exchange: step.after, ..files.after }, step.out);
}

/// Why contents could not be had, in words.
pub proof fn reasons_are_put_in_words(bytes: u64, limit: u64)
    ensures
        reason(ClipError::Stale) == "that copy has since been replaced"@,
        reason(ClipError::OwnerRefused)
            == "the application that copied it would not hand it over"@,
        reason(ClipError::Cancelled) == "the machine holding it went away"@,
        reason(ClipError::TooLarge { bytes, limit }) == "it is "@ + crate::text::decimal(
            bytes as nat,
        ) + " bytes and the limit is "@ + crate::text::decimal(limit as nat)
            + "; raise clipboard.max_bytes"@,
{
}

// --- manifests -----------------------------------------------------------------------------

/// Files picked up from a drag are offered at once, under the next number: their
/// manifest is kept with those on offer, and whoever asks for what was offered is
/// answered with it, though nothing was ever on the clipboard.
pub proof fn what_is_dragged_is_offered_at_once(
    s: SharingView,
    offered: OfferedView,
    bytes: Seq<u8>,
    now: u64,
)
    requires
        s.files_enabled,
        s.exchange.enabled,
        s.exchange.allowed.contains(FormatView::Uris),
        s.exchange.counter < u64::MAX,
        s.exchange.remote is None,
        keyed(s.synthetic),
    ensures
        ({
            let step = s.dragged(offered, bytes, now);
            let seq = ClipSeq { device: s.exchange.me, counter: (s.exchange.counter + 1) as u64 };
            let format = FormatView::Uris;
            &&& s.announced(now) == Some(seq)
            &&& value_of(step.after.synthetic, seq) == Some(bytes)
            &&& step.after.offered.len() > 0 && step.after.offered.last() == offered
            &&& step.after.exchange.local is Some && step.after.exchange.local->0.seq == seq
            &&& step.after.apply_one(exchange::OutputView::ReadLocal { seq, format }).out == seq![
                EffectView::Queue { seq, format, result: Ok(bytes) },
            ]
        }),
{
    let available = seq![FormatView::Uris];
    assert(available[0] == FormatView::Uris);
    let change = exchange::InputView::LocalChanged(available);
    let step = s.exchange.step(change, now);
    crate::copy_laws::a_copy_here_is_offered_everywhere(
        s.exchange,
        available,
        now,
        FormatView::Uris,
    );
    let seq = ClipSeq { device: s.exchange.me, counter: (s.exchange.counter + 1) as u64 };
    assert(step.after.local->0.seq == seq);
    let stored_now = crate::table::stored(s.synthetic, seq, bytes);
    stored_reads_back(s.synthetic, seq, bytes, seq);
    crate::table::stored_stays_keyed(s.synthetic, seq, bytes);
    let oldest: int = if seq.counter > crate::sharing::OFFERED_KEPT {
        seq.counter - crate::sharing::OFFERED_KEPT
    } else {
        0
    };
    filtered_reads_back(stored_now, crate::sharing::newer_than(oldest), seq);
    crate::table::value_of_finds(stored_now, seq);
    let ready = SharingView {
        exchange: step.after,
        offered: kept(s.offered.push(offered)),
        synthetic: stored_now.filter(crate::sharing::newer_than(oldest)),
        ..s
    };
    clipboard_keeps_count(ready, step.out);
}

/// A manifest that was made is kept with those on offer and handed to whoever
/// asked for the files; where none could be made, they are told that they cannot
/// have them.
pub proof fn a_manifest_is_handed_over(
    s: SharingView,
    seq: ClipSeq,
    offered: OfferedView,
    bytes: Seq<u8>,
    now: u64,
)
    ensures
        ({
            let made = s.described(seq, Some((offered, bytes)), now);
            let not_made = s.described(seq, None, now);
            let format = FormatView::Uris;
            &&& made.after.offered.len() > 0 && made.after.offered.last() == offered
            &&& made.after.exchange == s.exchange.step(
                exchange::InputView::ReadDone { seq, format, result: Ok(bytes) },
                now,
            ).after
            &&& not_made.after.offered == s.offered
            &&& not_made.after.exchange == s.exchange.step(
                exchange::InputView::ReadDone {
                    seq,
                    format,
                    result: Err(ClipError::OwnerRefused),
                },
                now,
            ).after
        }),
{
    let format = FormatView::Uris;
    let a = s.exchange.step(
        exchange::InputView::ReadDone { seq, format, result: Ok(bytes) },
        now,
    );
    let b = s.exchange.step(
        exchange::InputView::ReadDone { seq, format, result: Err(ClipError::OwnerRefused) },
        now,
    );
    clipboard_keeps_count(
        SharingView { exchange: a.after, offered: kept(s.offered.push(offered)), ..s },
        a.out,
    );
    clipboard_keeps_count(SharingView { exchange: b.after, ..s }, b.out);
}

/// What was read off the clipboard goes to whoever asked; but of a list of files a
/// manifest is made first, if it names any.
pub proof fn what_was_read_goes_to_whoever_asked(
    s: SharingView,
    seq: ClipSeq,
    format: FormatView,
    result: Result<Seq<u8>, ClipError>,
    windows: bool,
    now: u64,
)
    ensures
        ({
            let step = s.read_done(seq, format, result, windows, now);
            let files = format == FormatView::Uris && value_of(s.synthetic, seq) is None && result
                is Ok;
            let named = crate::files::paths_named(
                crate::text::lines(crate::files::utf8_text(result->Ok_0)),
                windows,
            );
            &&& files && named.len() > 0 ==> step.after == s && step.out == seq![
                EffectView::Describe { seq, paths: named },
            ]
            &&& files && named.len() == 0 ==> step == s.described(seq, None, now)
            &&& !files ==> step.after.exchange == s.exchange.step(
                exchange::InputView::ReadDone { seq, format, result },
                now,
            ).after
        }),
{
    let read = s.exchange.step(exchange::InputView::ReadDone { seq, format, result }, now);
    clipboard_keeps_count(SharingView { exchange: read.after, ..s }, read.out);
}

/// Messages about files go to where files are moved, and the others to the
/// clipboard; and what the cursor carried here before its offer came is asked for
/// as soon as it comes.
pub proof fn where_a_message_goes(s: SharingView, from: DeviceId, msg: BulkView, now: u64)
    ensures
        msg is FileOffer || msg is FileRequest || msg is FileChunk || msg is FileDone || msg
            is FileAbort ==> s.peer_said(from, msg, now) == s.transferred(
            transfer::InputView::FromPeer { from, msg },
        ),
        (msg is ClipOffer || msg is ClipRequest || msg is ClipChunk || msg is ClipUnavailable || msg
            is ClipCancel) && s.pending_drop is None ==> s.peer_said(from, msg, now) == s.exchanged(
            exchange::InputView::FromPeer { from, msg },
            now,
        ),
{
    let step = s.exchange.step(exchange::InputView::FromPeer { from, msg }, now);
    clipboard_keeps_count(SharingView { exchange: step.after, ..s }, step.out);
}

/// What the cursor carried here before its offer came is asked for as soon as it
/// comes, and is waited for no more.
pub proof fn a_drop_that_was_waited_for_is_made(
    s: SharingView,
    from: DeviceId,
    offer: crate::proto::OfferView,
    now: u64,
    k: int,
)
    requires
        s.files_enabled,
        s.exchange.enabled,
        0 <= k < offer.entries.len(),
        s.exchange.allowed.contains(offer.entries[k].format),
        s.pending_drop == Some(offer.seq),
        s.next_ticket < u64::MAX,
    ensures
        s.peer_said(from, BulkView::ClipOffer(offer), now).after.pending_drop is None,
        s.peer_said(from, BulkView::ClipOffer(offer), now).after.next_ticket == s.next_ticket + 1,
{
    let msg = BulkView::ClipOffer(offer);
    let step = s.exchange.step(exchange::InputView::FromPeer { from, msg }, now);
    crate::copy_laws::a_copy_elsewhere_is_taken_up_and_passed_on(s.exchange, from, offer, now, k);
    let ready = SharingView { exchange: step.after, ..s };
    clipboard_keeps_count(ready, step.out);
    clipboard_leaves_files_on(ready, step.out);
    let heard = s.exchanged(exchange::InputView::FromPeer { from, msg }, now);
    what_the_cursor_carries_is_wanted(heard.after, offer.seq, now);
}

proof fn clipboard_leaves_files_on(s: SharingView, outputs: Seq<exchange::OutputView>)
    ensures
        s.apply(outputs).after.files_enabled == s.files_enabled,
    decreases outputs.len(),
{
    if outputs.len() > 0 {
        clipboard_leaves_files_on(s, outputs.drop_last());
    }
}

} // verus!
