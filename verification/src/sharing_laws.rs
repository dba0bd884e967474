//! What holds of the clipboard side of a daemon, whatever happens to it.

use vstd::prelude::*;

use crate::exchange;
use crate::layout::DeviceId;
use crate::proto::{BulkView, ClipSeq, FileOfferView, FormatView, TransferId};
use crate::sharing::{
    find_offered, kept, not_files, Doing, EffectView, IncomingView, SharingView, OFFERED_KEPT,
};
use crate::survey::OfferedView;
use crate::table::{filter_members, value_of, value_of_finds};
use crate::transfer;
use crate::transfer::pulled_through;

verus! {

/// A file is closed only when exactly as much of it has arrived as was
/// announced, and the last piece said it was the last.
pub proof fn a_file_is_finished_only_when_it_is_whole(s: SharingView)
    requires
        s.incoming is Some,
        s.incoming->0.doing is Writing,
        s.incoming->0.sound(),
        s.disk_done().out.len() == 1,
        s.disk_done().out[0] is Finish,
    ensures
        ({
            let incoming = s.incoming->0;
            &&& incoming.doing->last
            &&& s.disk_done().out[0]->Finish_path == incoming.landing.paths[incoming.index]
            &&& incoming.current->0 + incoming.doing->len
                == incoming.offer.files[incoming.index].bytes
        }),
{
    let incoming = s.incoming->0;
    let written = (incoming.current->0 + incoming.doing->len) as u64;
    let wrote = SharingView {
        incoming: Some(
            IncomingView { current: Some(written), doing: Doing::Nothing, ..incoming },
        ),
        ..s
    };
    asking_ends_or_sends(wrote);
    let over = wrote.fail_pull(
        incoming.offer.id,
        "a file arrived larger than it was said to be"@,
    ).out;
    let short = wrote.fail_pull(
        incoming.offer.id,
        "a file arrived shorter than it was said to be"@,
    ).out;
    assert(over[0] is Remove);
    assert(short[0] is Remove);
}

/// Asking for the next piece sends one request, or ends the pull where nobody
/// is left to ask.
proof fn asking_ends_or_sends(s: SharingView)
    requires
        s.incoming is Some,
        s.incoming->0.current is Some,
    ensures
        s.ask().out.len() > 0,
        s.ask().out[0] is Send || s.ask().out[0] is Remove,
        s.ask().after.incoming is None ==> s.ask().out == s.finish_pull(
            s.incoming->0.offer.id,
            "the machine holding the files went away"@,
        ).out,
{
    let incoming = s.incoming->0;
    let input = transfer::InputView::Pull {
        id: incoming.offer.id,
        index: incoming.index as u32,
        offset: incoming.current->0,
    };
    let step = s.transfer.step(input);
    let told = SharingView { transfer: step.after, ..s };
    assert(step.out.len() == 1);
    settling_one(told, step.out);
}

proof fn settling_one(s: SharingView, outputs: Seq<transfer::OutputView>)
    requires
        outputs.len() == 1,
    ensures
        s.settle(outputs).after == s.settle_one(outputs[0]).after,
        s.settle(outputs).out == s.settle_one(outputs[0]).out,
{
    let none = outputs.drop_last();
    assert(s.settle(none) == s.still());
    assert(s.settle(outputs).out =~= s.settle_one(outputs[0]).out);
}

/// Whatever was half written is taken away when its pull ends, and nothing is
/// left arriving.
pub proof fn nothing_half_written_is_left(s: SharingView, why: Seq<char>)
    requires
        s.incoming is Some,
        s.incoming->0.current is Some,
    ensures
        ({
            let incoming = s.incoming->0;
            let step = s.fail_pull(incoming.offer.id, why);
            &&& step.after.incoming is None
            &&& step.out[0] == (EffectView::Remove {
                path: incoming.landing.paths[incoming.index],
            })
        }),
{
}

/// Whether a paste is told how it ended.
pub open spec fn told(out: Seq<EffectView>, paste: u64) -> bool {
    exists|i: int|
        0 <= i < out.len() && match #[trigger] out[i] {
            EffectView::Refuse { paste: p, why } => p == paste,
            EffectView::Landed { paste: p, top_level } => p == Some(paste),
            _ => false,
        }
}

proof fn a_finished_pull_tells(s: SharingView, id: TransferId, why: Seq<char>, paste: u64)
    requires
        s.incoming is Some,
        s.incoming->0.paste == Some(paste),
        s.finish_pull(id, why).after.incoming is None,
    ensures
        told(s.finish_pull(id, why).out, paste),
{
    let out = s.finish_pull(id, why).out;
    assert(out.last() == (EffectView::Refuse { paste, why }));
    assert(out[out.len() - 1] == (EffectView::Refuse { paste, why }));
}

/// Whoever pasted files is told how it went: a pull that ends, ends by handing
/// the files over or by saying why they will not come.
pub proof fn whoever_pasted_is_told(s: SharingView, shown: Seq<char>, error: Seq<char>, paste: u64)
    requires
        s.incoming is Some,
        s.incoming->0.sound(),
        s.incoming->0.paste == Some(paste),
    ensures
        s.disk_done().after.incoming is None ==> told(s.disk_done().out, paste),
        s.disk_failed(shown, error).after.incoming is None ==> told(
            s.disk_failed(shown, error).out,
            paste,
        ),
{
    let incoming = s.incoming->0;
    let id = incoming.offer.id;
    if s.disk_failed(shown, error).after.incoming is None {
        match incoming.doing {
            Doing::Nothing => {},
            Doing::MakingFolder => {
                a_finished_pull_tells(s, id, "could not create "@ + shown + ": "@ + error, paste);
            },
            Doing::MakingFile => {
                a_finished_pull_tells(s, id, "could not create "@ + shown + ": "@ + error, paste);
            },
            Doing::FinishingEmpty => {
                a_finished_pull_tells(s, id, "could not write "@ + shown + ": "@ + error, paste);
            },
            Doing::Writing { len, last } => {
                a_finished_pull_tells(
                    s,
                    id,
                    "could not write the arriving file: "@ + error,
                    paste,
                );
            },
            Doing::Finishing => {
                a_finished_pull_tells(s, id, "could not finish writing a file: "@ + error, paste);
            },
        }
    }
    if s.disk_done().after.incoming is None {
        match incoming.doing {
            Doing::Nothing => {},
            Doing::MakingFolder => {
                assert(s.disk_done().out[0] is Landed);
            },
            Doing::FinishingEmpty => {
                assert(s.disk_done().out[0] is Landed);
            },
            Doing::Finishing => {
                assert(s.disk_done().out[0] is Landed);
            },
            Doing::MakingFile => {
                let begun = SharingView {
                    incoming: Some(
                        IncomingView { current: Some(0), doing: Doing::Nothing, ..incoming },
                    ),
                    ..s
                };
                asking_ends_or_sends(begun);
                a_finished_pull_tells(
                    begun,
                    id,
                    "the machine holding the files went away"@,
                    paste,
                );
            },
            Doing::Writing { len, last } => {
                let written = (incoming.current->0 + len) as u64;
                let wrote = SharingView {
                    incoming: Some(
                        IncomingView { current: Some(written), doing: Doing::Nothing, ..incoming },
                    ),
                    ..s
                };
                asking_ends_or_sends(wrote);
                a_finished_pull_tells(
                    wrote,
                    id,
                    "the machine holding the files went away"@,
                    paste,
                );
                a_finished_pull_tells(
                    wrote,
                    id,
                    "a file arrived larger than it was said to be"@,
                    paste,
                );
                a_finished_pull_tells(
                    wrote,
                    id,
                    "a file arrived shorter than it was said to be"@,
                    paste,
                );
            },
        }
    }
}

proof fn told_either_way(a: Seq<EffectView>, b: Seq<EffectView>, paste: u64)
    ensures
        told(a, paste) || told(b, paste) ==> told(a + b, paste),
{
    if told(a, paste) {
        let i = choose|i: int|
            0 <= i < a.len() && match #[trigger] a[i] {
                EffectView::Refuse { paste: p, why } => p == paste,
                EffectView::Landed { paste: p, top_level } => p == Some(paste),
                _ => false,
            };
        assert((a + b)[i] == a[i]);
    } else if told(b, paste) {
        let i = choose|i: int|
            0 <= i < b.len() && match #[trigger] b[i] {
                EffectView::Refuse { paste: p, why } => p == paste,
                EffectView::Landed { paste: p, top_level } => p == Some(paste),
                _ => false,
            };
        assert((a + b)[a.len() + i] == b[i]);
    }
}

/// The pull goes on for the same paste, or it is over and the paste is told;
/// and it is over once the transfer has failed.
proof fn settling_keeps_or_tells(s: SharingView, outputs: Seq<transfer::OutputView>, paste: u64)
    requires
        s.incoming is Some,
        s.incoming->0.paste == Some(paste),
    ensures
        ({
            let step = s.settle(outputs);
            ||| step.after.incoming is None && told(step.out, paste)
            ||| step.after.incoming is Some && step.after.incoming->0.paste == Some(paste)
                && step.after.incoming->0.offer.id == s.incoming->0.offer.id && !outputs.contains(
                transfer::OutputView::Failed(s.incoming->0.offer.id),
            )
        }),
    decreases outputs.len(),
{
    if outputs.len() > 0 {
        let id = s.incoming->0.offer.id;
        let front = outputs.drop_last();
        let last = outputs.last();
        let before = s.settle(front);
        settling_keeps_or_tells(s, front, paste);
        told_either_way(before.out, before.after.settle_one(last).out, paste);
        if before.after.incoming is Some {
            let failed = transfer::OutputView::Failed(id);
            if outputs.contains(failed) {
                let i = choose|i: int| 0 <= i < outputs.len() && outputs[i] == failed;
                if i < front.len() {
                    assert(front[i] == failed);
                }
            }
            match last {
                transfer::OutputView::Failed(other) => {
                    let why = "the machine holding the files went away"@;
                    if before.after.finish_pull(other, why).after.incoming is None {
                        a_finished_pull_tells(before.after, other, why, paste);
                    }
                },
                transfer::OutputView::Chunk { id: other, index, offset, data, last } => {
                    let why = crate::sharing::out_of_order();
                    if before.after.finish_pull(other, why).after.incoming is None {
                        a_finished_pull_tells(before.after, other, why, paste);
                    }
                },
                _ => {
                },
            }
        }
    }
}

proof fn the_clipboard_leaves_files_alone(s: SharingView, outputs: Seq<exchange::OutputView>)
    ensures
        s.apply(outputs).after.incoming == s.incoming,
    decreases outputs.len(),
{
    if outputs.len() > 0 {
        the_clipboard_leaves_files_alone(s, outputs.drop_last());
    }
}

proof fn an_exchange_leaves_files_alone(s: SharingView, input: exchange::InputView, now: u64)
    ensures
        s.exchanged(input, now).after.incoming == s.incoming,
{
    let step = s.exchange.step(input, now);
    the_clipboard_leaves_files_alone(SharingView { exchange: step.after, ..s }, step.out);
}

proof fn a_transfer_keeps_or_tells(s: SharingView, input: transfer::InputView, paste: u64)
    requires
        s.incoming is Some,
        s.incoming->0.paste == Some(paste),
    ensures
        s.transferred(input).after.incoming is None ==> told(s.transferred(input).out, paste),
        s.transfer.step(input).out.contains(transfer::OutputView::Failed(s.incoming->0.offer.id))
            ==> s.transferred(input).after.incoming is None,
{
    let step = s.transfer.step(input);
    settling_keeps_or_tells(SharingView { transfer: step.after, ..s }, step.out, paste);
}

/// Whoever pasted files is told, too, when the end comes from elsewhere: a
/// machine leaves, or says something, an abort among it. And where that is the
/// machine the files come from, leaving and an abort do end the pull.
pub proof fn whoever_pasted_is_told_when_the_source_fails(
    s: SharingView,
    peer: DeviceId,
    msg: BulkView,
    reason: Seq<char>,
    now: u64,
    paste: u64,
)
    requires
        s.incoming is Some,
        s.incoming->0.paste == Some(paste),
    ensures
        ({
            let id = s.incoming->0.offer.id;
            let gone = s.peer_gone(peer, now);
            let said = s.peer_said(peer, msg, now);
            let aborted = s.peer_said(peer, BulkView::FileAbort { id, reason }, now);
            &&& gone.after.incoming is None ==> told(gone.out, paste)
            &&& said.after.incoming is None ==> told(said.out, paste)
            &&& value_of(s.transfer.pulling, id) == Some(peer) ==> {
                &&& gone.after.incoming is None
                &&& aborted.after.incoming is None
                &&& told(gone.out, paste)
                &&& told(aborted.out, paste)
            }
        }),
{
    let id = s.incoming->0.offer.id;
    let failed = transfer::OutputView::Failed(id);
    let leaving = transfer::InputView::PeerGone(peer);
    let files = s.transferred(leaving);
    a_transfer_keeps_or_tells(s, leaving, paste);
    an_exchange_leaves_files_alone(files.after, exchange::InputView::PeerGone(peer), now);
    told_either_way(
        files.out,
        files.after.exchanged(exchange::InputView::PeerGone(peer), now).out,
        paste,
    );
    a_transfer_keeps_or_tells(s, transfer::InputView::FromPeer { from: peer, msg }, paste);
    let heard = s.exchanged(exchange::InputView::FromPeer { from: peer, msg }, now);
    an_exchange_leaves_files_alone(s, exchange::InputView::FromPeer { from: peer, msg }, now);
    if heard.after.pending_drop is Some {
        let seq = heard.after.pending_drop->0;
        let dropping = SharingView {
            pending_drop: None,
            next_ticket: (heard.after.next_ticket + 1) as u64,
            drop_tickets: if heard.after.drop_tickets.contains(heard.after.next_ticket) {
                heard.after.drop_tickets
            } else {
                heard.after.drop_tickets.push(heard.after.next_ticket)
            },
            ..heard.after
        };
        an_exchange_leaves_files_alone(
            dropping,
            exchange::InputView::Wanted {
                ticket: heard.after.next_ticket,
                seq,
                format: FormatView::Uris,
            },
            now,
        );
    }
    if value_of(s.transfer.pulling, id) == Some(peer) {
        let abort = BulkView::FileAbort { id, reason };
        let input = transfer::InputView::FromPeer { from: peer, msg: abort };
        let out = s.transfer.step(input).out;
        assert(out.last() == failed);
        assert(out[out.len() - 1] == failed);
        a_transfer_keeps_or_tells(s, input, paste);
        value_of_finds(s.transfer.pulling, id);
        let through = s.transfer.pulling.filter(pulled_through(peer));
        filter_members(s.transfer.pulling, pulled_through(peer));
        assert(s.transfer.pulling.contains((id, peer)));
        assert(through.contains((id, peer)));
        let i = choose|i: int| 0 <= i < through.len() && through[i] == (id, peer);
        let orphans = s.transfer.orphans(peer);
        assert(s.transfer.step(leaving).out[orphans.len() + i] == failed);
    }
}

/// A piece is written only where the last one ended; anything else ends the
/// pull or is no concern of it.
pub proof fn pieces_are_written_in_order(
    s: SharingView,
    id: TransferId,
    index: u32,
    offset: u64,
    data: Seq<u8>,
    last: bool,
)
    requires
        s.incoming is Some,
        s.piece_arrived(id, index, offset, data, last).out.contains(EffectView::Write { data }),
    ensures
        s.incoming->0.offer.id == id,
        s.incoming->0.index == index,
        s.incoming->0.current == Some(offset),
{
    let out = s.piece_arrived(id, index, offset, data, last).out;
    let i = choose|i: int| 0 <= i < out.len() && out[i] == (EffectView::Write { data });
    assert(out[i] is Write);
    let over = s.fail_pull(id, crate::sharing::out_of_order()).out;
    assert(forall|j: int| 0 <= j < over.len() ==> !(#[trigger] over[j] is Write));
}

/// With files turned off, none is fetched, taken or offered, here or to the
/// other machines.
pub proof fn files_stay_put_when_they_are_off(
    s: SharingView,
    offer: FileOfferView,
    paste: Option<u64>,
    present: Seq<Seq<char>>,
    seq: ClipSeq,
    formats: Seq<FormatView>,
    now: u64,
)
    requires
        !s.files_enabled,
    ensures
        s.begin_pull(offer, paste, present).after == s,
        s.drop_here(seq, now) == s.still(),
        s.changed(formats, now) == s.exchanged(
            exchange::InputView::LocalChanged(formats.filter(not_files())),
            now,
        ),
        !formats.filter(not_files()).contains(FormatView::Uris),
        ({
            let out = s.apply_one(exchange::OutputView::OfferLocally { seq, formats }).out;
            forall|i: int|
                0 <= i < out.len() ==> #[trigger] out[i] is Offer
                    && !out[i]->Offer_formats.contains(FormatView::Uris)
        }),
{
    crate::table::filter_members(formats, not_files());
    let shared = formats.filter(not_files());
    if shared.contains(FormatView::Uris) {
        let i = choose|i: int| 0 <= i < shared.len() && shared[i] == FormatView::Uris;
        assert(not_files()(shared[i]));
    }
}

/// One set of files arrives at a time: while one is, another is turned away and
/// the first goes on as it was.
pub proof fn one_set_of_files_at_a_time(
    s: SharingView,
    offer: FileOfferView,
    paste: u64,
    present: Seq<Seq<char>>,
)
    requires
        s.files_enabled,
        s.incoming is Some,
    ensures
        s.begin_pull(offer, Some(paste), present).after == s,
        s.begin_pull(offer, Some(paste), present).out == seq![
            EffectView::Refuse {
                paste,
                why: "another set of files is still arriving; try again when it has"@,
            },
        ],
{
}

/// A file is read for another machine only out of a manifest that is still on
/// offer, and only one that the manifest names.
pub proof fn only_what_is_on_offer_is_read(
    s: SharingView,
    to: DeviceId,
    id: TransferId,
    index: u32,
    offset: u64,
)
    requires
        s.piece_of(to, id, index, offset) is ReadPiece,
    ensures
        find_offered(s.offered, id) is Some,
        index < find_offered(s.offered, id)->0.offer.files.len(),
        !find_offered(s.offered, id)->0.offer.files[index as int].is_dir,
{
}

/// The last few manifests are kept, and no more.
pub proof fn the_last_few_manifests_are_kept(offered: Seq<OfferedView>, new: OfferedView)
    ensures
        kept(offered.push(new)).len() <= OFFERED_KEPT,
        kept(offered.push(new)).last() == new,
{
}

} // verus!
