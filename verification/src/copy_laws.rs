//! What sharing the clipboard is for: a copy on one machine is offered on the
//! others, and a paste there brings what was copied.

use vstd::prelude::*;

use crate::exchange::{
    format_named, formats_named, waits_for, waits_for_other, ExchangeView, FetchingView, InputView,
    OutputView, Waiter, WaitingView,
};
use crate::exchange_laws::failing_leaves_the_others;
use crate::layout::DeviceId;
use crate::proto::{
    BulkView, ClipError, ClipFormat, ClipSeq, EntryView, FormatView, KeyView, OfferView,
    MAX_CHUNK_DATA,
};
use crate::table::{
    erased_filters, filter_members, filtered_reads_back, in_order_lists_each_once, keyed,
    stored_reads_back, value_of, with_item_keeps_order, without_item, without_item_filters,
};
use crate::text::{lower, trim};

verus! {

/// Whether this is an offer of a copy, in these formats, to a machine.
pub open spec fn offers_to(o: OutputView, to: DeviceId, seq: ClipSeq, formats: Seq<FormatView>) -> bool {
    &&& o is Send
    &&& o->to == to
    &&& o->msg is ClipOffer
    &&& o->msg->ClipOffer_0.seq == seq
    &&& o->msg->ClipOffer_0.entries.len() == formats.len()
    &&& forall|i: int|
        0 <= i < formats.len() ==> (#[trigger] o->msg->ClipOffer_0.entries[i]).format == formats[i]
            && o->msg->ClipOffer_0.entries[i].bytes is None
            && o->msg->ClipOffer_0.entries[i].hash is None
}

/// A machine that arrives is offered what is on the clipboard now, whether it
/// was copied here or is held from elsewhere, so that it can be pasted there at
/// once; but not what came from that machine itself, and nothing while sharing
/// is off. From then on it is one of those that are told.
pub proof fn a_newcomer_is_offered_the_clipboard(
    s: ExchangeView,
    peer: DeviceId,
    other: DeviceId,
    now: u64,
)
    requires
        !(s.local is Some && s.remote is Some),
        crate::table::ascending::<DeviceId>(s.peers),
    ensures
        ({
            let step = s.step(InputView::PeerUp(peer), now);
            &&& s.enabled && s.local is Some ==> step.out.len() == 1 && offers_to(
                step.out[0],
                peer,
                s.local->0.seq,
                s.local->0.formats,
            )
            &&& s.enabled && s.remote is Some && s.remote->0.from != peer ==> step.out.len() == 1
                && offers_to(step.out[0], peer, s.remote->0.seq, s.remote->0.formats)
            &&& s.remote is Some && s.remote->0.from == peer ==> step.out.len() == 0
            &&& s.local is None && s.remote is None ==> step.out.len() == 0
            &&& !s.enabled ==> step.out.len() == 0
            &&& step.after.peers.contains(other) == (s.peers.contains(other) || other == peer)
            &&& step.after == (ExchangeView { peers: step.after.peers, ..s })
        }),
{
    with_item_keeps_order::<DeviceId>(s.peers, peer);
}

// --- copying -----------------------------------------------------------------------

/// The formats of a copy that are shared: those that may be, in the order in
/// which they were said to be there.
pub open spec fn shares(formats: Seq<FormatView>, available: Seq<FormatView>, allowed: Seq<FormatView>) -> bool {
    &&& forall|f: FormatView| #[trigger]
        formats.contains(f) <==> available.contains(f) && allowed.contains(f)
    &&& (forall|i: int| 0 <= i < available.len() ==> allowed.contains(#[trigger] available[i]))
        ==> formats == available
}

proof fn filtering_everything<A>(s: Seq<A>, p: spec_fn(A) -> bool)
    requires
        forall|i: int| 0 <= i < s.len() ==> p(#[trigger] s[i]),
    ensures
        s.filter(p) == s,
    decreases s.len(),
{
    reveal(Seq::filter);
    if s.len() > 0 {
        assert forall|i: int| 0 <= i < s.drop_last().len() implies p(#[trigger] s.drop_last()[i]) by {
            assert(s.drop_last()[i] == s[i]);
        }
        filtering_everything(s.drop_last(), p);
        assert(p(s[s.len() - 1]));
        assert(s.drop_last().push(s.last()) =~= s);
    } else {
        assert(s.filter(p) =~= s);
    }
}

proof fn the_shared_formats(available: Seq<FormatView>, allowed: Seq<FormatView>)
    ensures
        shares(available.filter(|f: FormatView| allowed.contains(f)), available, allowed),
{
    let p = |f: FormatView| allowed.contains(f);
    filter_members(available, p);
    if forall|i: int| 0 <= i < available.len() ==> allowed.contains(#[trigger] available[i]) {
        filtering_everything(available, p);
    }
}

/// Whether a notice of a change can only be the offer that was just put on the
/// clipboard here coming back: within three quarters of a second of it, with
/// nothing in it that the offer had not.
pub open spec fn comes_back(s: ExchangeView, available: Seq<FormatView>, now: u64) -> bool {
    &&& s.remote is Some
    &&& now <= s.remote->0.placed + 750_000_000
    &&& forall|f: FormatView| #[trigger]
        available.contains(f) && s.allowed.contains(f) ==> s.remote->0.formats.contains(f)
}

/// Something is copied here: it becomes this machine's offer, under the next
/// number, in the formats that may be shared; what was offered or held before is
/// over; and every other machine is offered it, in their order, after all that
/// had to be said about what is over.
pub proof fn a_copy_here_is_offered_everywhere(
    s: ExchangeView,
    available: Seq<FormatView>,
    now: u64,
    f: FormatView,
)
    requires
        s.enabled,
        s.counter < u64::MAX,
        available.contains(f),
        s.allowed.contains(f),
        !comes_back(s, available, now),
    ensures
        ({
            let step = s.step(InputView::LocalChanged(available), now);
            let own = step.after.local->0;
            let before = step.out.len() - s.peers.len();
            &&& step.after.local is Some
            &&& own.seq.device == s.me
            &&& own.seq.counter == s.counter + 1
            &&& step.after.counter == s.counter + 1
            &&& shares(own.formats, available, s.allowed)
            &&& step.after.remote is None
            &&& step.after.peers == s.peers
            &&& before >= 0
            &&& forall|i: int|
                0 <= i < s.peers.len() ==> offers_to(
                    #[trigger] step.out[before + i],
                    s.peers[i],
                    own.seq,
                    own.formats,
                )
            &&& forall|i: int|
                0 <= i < before ==> !((#[trigger] step.out[i]) is Send && step.out[i]->msg
                    is ClipOffer) && !(step.out[i] is OfferLocally)
        }),
{
    the_shared_formats(available, s.allowed);
    let formats = available.filter(|f: FormatView| s.allowed.contains(f));
    assert(formats.contains(f));
    assert(formats.len() > 0);
    let step = s.step(InputView::LocalChanged(available), now);
    if s.is_echo(formats, now) {
        assert forall|g: FormatView| #[trigger]
            available.contains(g) && s.allowed.contains(g) implies s.remote->0.formats.contains(
            g,
        ) by {
            assert(formats.contains(g));
            let i = choose|i: int| 0 <= i < formats.len() && formats[i] == g;
            assert(s.remote->0.formats.contains(formats[i]));
        }
        assert(comes_back(s, available, now));
    }
    let a = s.forget_local();
    let b = a.followed_by(a.after.forget_remote(None));
    dropping_offers_offers_nothing(s, None);
    let seq = ClipSeq { device: s.me, counter: (s.counter + 1) as u64 };
    let told = crate::exchange::to_each(
        s.peers,
        BulkView::ClipOffer(crate::exchange::announcement(seq, formats)),
    );
    assert(step.out == b.out + told);
    assert forall|i: int| 0 <= i < s.peers.len() implies offers_to(
        #[trigger] step.out[step.out.len() - s.peers.len() + i],
        s.peers[i],
        seq,
        formats,
    ) by {
        assert(step.out[b.out.len() + i] == told[i]);
    }
}

/// A notice that is only the offer here coming back changes nothing.
pub proof fn an_offer_coming_back_is_no_copy(s: ExchangeView, available: Seq<FormatView>, now: u64)
    requires
        comes_back(s, available, now),
    ensures
        s.step(InputView::LocalChanged(available), now).after == s,
        s.step(InputView::LocalChanged(available), now).out.len() == 0,
{
    let p = |f: FormatView| s.allowed.contains(f);
    let formats = available.filter(p);
    filter_members(available, p);
    assert forall|i: int| 0 <= i < formats.len() implies s.remote->0.formats.contains(
        #[trigger] formats[i],
    ) by {
        assert(formats.contains(formats[i]));
    }
}

spec fn offers_nothing(out: Seq<OutputView>) -> bool {
    forall|i: int|
        0 <= i < out.len() ==> !((#[trigger] out[i]) is Send && out[i]->msg is ClipOffer) && !(out[i]
            is OfferLocally)
}

proof fn failing_offers_nothing(s: ExchangeView, keys: Seq<KeyView>, why: ClipError)
    ensures
        offers_nothing(s.fail_each(keys, why).out),
        s.fail_each(keys, why).after.peers == s.peers,
        s.fail_each(keys, why).after.remote == s.remote,
        s.fail_each(keys, why).after.local == s.local,
        s.fail_each(keys, why).after.counter == s.counter,
        s.fail_each(keys, why).after.me == s.me,
        s.fail_each(keys, why).after.allowed == s.allowed,
    decreases keys.len(),
{
    if keys.len() > 0 {
        failing_offers_nothing(s, keys.drop_last(), why);
    }
}

proof fn forgetting_offers_nothing(s: ExchangeView, seq: ClipSeq)
    ensures
        offers_nothing(s.forget(seq).out),
        s.forget(seq).after.peers == s.peers,
        s.forget(seq).after.remote == s.remote,
        s.forget(seq).after.local == s.local,
        s.forget(seq).after.counter == s.counter,
        s.forget(seq).after.me == s.me,
        s.forget(seq).after.allowed == s.allowed,
{
    let cleared = ExchangeView {
        cache: s.cache.filter(|e: (KeyView, Seq<u8>)| e.0.seq != seq),
        reading: s.reading.filter(|k: KeyView| k.seq != seq),
        fetching: s.fetching.filter(|e: (KeyView, FetchingView)| e.0.seq != seq),
        ..s
    };
    failing_offers_nothing(
        cleared,
        s.wanted_formats(seq).map_values(|f: FormatView| KeyView { seq, format: f }),
        ClipError::Stale,
    );
}

proof fn dropping_offers_offers_nothing(s: ExchangeView, except: Option<ClipSeq>)
    ensures
        ({
            let a = s.forget_local();
            let b = a.followed_by(a.after.forget_remote(except));
            &&& offers_nothing(b.out)
            &&& b.after.peers == s.peers
            &&& b.after.remote is None
            &&& b.after.local is None
            &&& b.after.counter == s.counter
            &&& b.after.me == s.me
            &&& b.after.allowed == s.allowed
        }),
{
    if let Some(own) = s.local {
        forgetting_offers_nothing(ExchangeView { local: None, ..s }, own.seq);
    }
    let a = s.forget_local().after;
    if let Some(held) = a.remote {
        forgetting_offers_nothing(ExchangeView { remote: None, ..a }, held.seq);
    }
}

/// Something is copied elsewhere: it is put on the clipboard here, in the formats
/// that may be shared, held from whoever said so; nothing copied here is offered
/// any more; and every machine but that one is offered it in turn.
pub proof fn a_copy_elsewhere_is_taken_up_and_passed_on(
    s: ExchangeView,
    from: DeviceId,
    offer: OfferView,
    now: u64,
    k: int,
)
    requires
        s.enabled,
        0 <= k < offer.entries.len(),
        s.allowed.contains(offer.entries[k].format),
    ensures
        ({
            let step = s.step(InputView::FromPeer { from, msg: BulkView::ClipOffer(offer) }, now);
            let held = step.after.remote->0;
            let named = offer.entries.map_values(|e: EntryView| e.format);
            let others = without_item(s.peers, from);
            let before = step.out.len() - others.len() - 1;
            &&& step.after.remote is Some
            &&& step.after.local is None
            &&& held.seq == offer.seq
            &&& held.from == from
            &&& held.placed == now
            &&& shares(held.formats, named, s.allowed)
            &&& before >= 0
            &&& step.out[before] == (OutputView::OfferLocally {
                seq: offer.seq,
                formats: held.formats,
            })
            &&& forall|i: int|
                0 <= i < others.len() ==> offers_to(
                    #[trigger] step.out[before + 1 + i],
                    others[i],
                    offer.seq,
                    held.formats,
                )
            &&& forall|p: DeviceId| #[trigger]
                others.contains(p) <==> s.peers.contains(p) && p != from
            &&& forall|i: int|
                0 <= i < before ==> !((#[trigger] step.out[i]) is Send && step.out[i]->msg
                    is ClipOffer) && !(step.out[i] is OfferLocally)
        }),
{
    let step = s.step(InputView::FromPeer { from, msg: BulkView::ClipOffer(offer) }, now);
    let named = offer.entries.map_values(|e: EntryView| e.format);
    the_shared_formats(named, s.allowed);
    let formats = named.filter(|f: FormatView| s.allowed.contains(f));
    assert(named[k] == offer.entries[k].format);
    assert(named.contains(named[k]));
    assert(formats.contains(named[k]));
    let a = s.forget_local();
    let b = a.followed_by(a.after.forget_remote(Some(offer.seq)));
    dropping_offers_offers_nothing(s, Some(offer.seq));
    let others = without_item(s.peers, from);
    let told = crate::exchange::to_each(
        others,
        BulkView::ClipOffer(crate::exchange::announcement(offer.seq, formats)),
    );
    let put = OutputView::OfferLocally { seq: offer.seq, formats };
    assert(step.out == b.out.push(put) + told);
    assert(step.out[b.out.len() as int] == put);
    assert forall|i: int| 0 <= i < others.len() implies offers_to(
        #[trigger] step.out[b.out.len() + 1 + i],
        others[i],
        offer.seq,
        formats,
    ) by {
        assert(step.out[b.out.len() + 1 + i] == told[i]);
    }
    let p = |d: DeviceId| d != from;
    without_item_filters(s.peers, from, p);
    filter_members(s.peers, p);
}

// --- a copy that is over -----------------------------------------------------------------

proof fn told_in_turn(s: ExchangeView, keys: Seq<KeyView>, why: ClipError, w: WaitingView)
    requires
        s.waiting.contains(w),
        keys.contains(w.key),
    ensures
        exists|i: int|
            0 <= i < s.fail_each(keys, why).out.len() && told_why(
                #[trigger] s.fail_each(keys, why).out[i],
                w,
                why,
            ),
    decreases keys.len(),
{
    let front = keys.drop_last();
    let before = s.fail_each(front, why);
    let then = before.after.fail(keys.last(), why);
    let all = s.fail_each(keys, why).out;
    assert(all == before.out + then.out);
    if front.contains(w.key) {
        told_in_turn(s, front, why, w);
        let i = choose|i: int| 0 <= i < before.out.len() && told_why(#[trigger] before.out[i], w, why);
        assert(all[i] == before.out[i]);
    } else {
        let k = choose|k: int| 0 <= k < keys.len() && keys[k] == w.key;
        if k < front.len() {
            assert(front[k] == w.key);
        }
        failing_leaves_the_others(s, front, why);
        assert(before.after.waiting.contains(w));
        everyone_is_told(before.after, keys.last(), why, w);
        let i = choose|i: int| 0 <= i < then.out.len() && told_why(#[trigger] then.out[i], w, why);
        assert(all[before.out.len() + i] == then.out[i]);
    }
}

/// Whether someone waiting for a copy is told, among all this, that it is over.
pub open spec fn told_it_is_over(out: Seq<OutputView>, w: WaitingView) -> bool {
    exists|i: int| 0 <= i < out.len() && told_why(#[trigger] out[i], w, ClipError::Stale)
}

/// Whether a fetch is called off where it was asked for.
pub open spec fn called_off(out: Seq<OutputView>, key: KeyView, fetch: FetchingView) -> bool {
    out.contains(
        OutputView::Send {
            to: fetch.from,
            msg: BulkView::ClipCancel { seq: key.seq, format: key.format },
        },
    )
}

proof fn more_says_as_much(out: Seq<OutputView>, before: Seq<OutputView>, after: Seq<OutputView>)
    ensures
        forall|w: WaitingView| #[trigger]
            told_it_is_over(out, w) ==> told_it_is_over(before + out + after, w),
        forall|k: KeyView, f: FetchingView| #[trigger]
            called_off(out, k, f) ==> called_off(before + out + after, k, f),
{
    let all = before + out + after;
    assert forall|w: WaitingView| #[trigger] told_it_is_over(out, w) implies told_it_is_over(
        all,
        w,
    ) by {
        let i = choose|i: int| 0 <= i < out.len() && told_why(#[trigger] out[i], w, ClipError::Stale);
        assert(all[before.len() + i] == out[i]);
    }
    assert forall|k: KeyView, f: FetchingView| #[trigger] called_off(out, k, f) implies called_off(
        all,
        k,
        f,
    ) by {
        let c = OutputView::Send {
            to: f.from,
            msg: BulkView::ClipCancel { seq: k.seq, format: k.format },
        };
        let i = choose|i: int| 0 <= i < out.len() && out[i] == c;
        assert(all[before.len() + i] == c);
    }
}

proof fn forgetting_calls_off(s: ExchangeView, seq: ClipSeq)
    ensures
        forall|w: WaitingView|
            s.waiting.contains(w) && w.key.seq == seq ==> #[trigger] told_it_is_over(
                s.forget(seq).out,
                w,
            ),
        forall|k: KeyView, f: FetchingView|
            s.fetching.contains((k, f)) && k.seq == seq ==> #[trigger] called_off(
                s.forget(seq).out,
                k,
                f,
            ),
{
    let named = |f: FormatView| KeyView { seq, format: f };
    let keys = s.wanted_formats(seq).map_values(named);
    let of_seq = |w: WaitingView| w.key.seq == seq;
    let its_format = |w: WaitingView| w.key.format;
    let asked = s.waiting.filter(of_seq);
    let going = |e: (KeyView, FetchingView)| e.0.seq == seq;
    let cleared = ExchangeView {
        cache: s.cache.filter(|e: (KeyView, Seq<u8>)| e.0.seq != seq),
        reading: s.reading.filter(|k: KeyView| k.seq != seq),
        fetching: s.fetching.filter(|e: (KeyView, FetchingView)| e.0.seq != seq),
        ..s
    };
    let gone = s.fetching.filter(going);
    filter_members(s.waiting, of_seq);
    filter_members(s.fetching, going);
    in_order_lists_each_once::<ClipFormat>(asked.map_values(its_format));
    let failed = cleared.fail_each(keys, ClipError::Stale).out;
    let out = s.forget(seq).out;
    let cancels = gone.map_values(|e: (KeyView, FetchingView)| crate::exchange::cancelled(e));
    assert(out == cancels + failed);
    assert forall|w: WaitingView| s.waiting.contains(w) && w.key.seq == seq implies #[trigger] told_it_is_over(
        out,
        w,
    ) by {
        assert(asked.contains(w));
        let i = choose|i: int| 0 <= i < asked.len() && asked[i] == w;
        assert(asked.map_values(its_format)[i] == w.key.format);
        assert(asked.map_values(its_format).contains(w.key.format));
        assert(s.wanted_formats(seq).contains(w.key.format));
        let j = choose|j: int|
            0 <= j < s.wanted_formats(seq).len() && s.wanted_formats(seq)[j] == w.key.format;
        assert(keys[j] == w.key);
        assert(keys.contains(w.key));
        told_in_turn(cleared, keys, ClipError::Stale, w);
        let n = choose|n: int|
            0 <= n < failed.len() && told_why(#[trigger] failed[n], w, ClipError::Stale);
        assert(out[cancels.len() + n] == failed[n]);
    }
    assert forall|k: KeyView, f: FetchingView|
        s.fetching.contains((k, f)) && k.seq == seq implies #[trigger] called_off(out, k, f) by {
        assert(gone.contains((k, f)));
        let i = choose|i: int| 0 <= i < gone.len() && gone[i] == (k, f);
        assert(out[i] == cancels[i]);
    }
}

/// Whether this is the copy that is on the clipboard now, made here or elsewhere.
pub open spec fn is_current(s: ExchangeView, seq: ClipSeq) -> bool {
    s.local is Some && s.local->0.seq == seq || s.remote is Some && s.remote->0.seq == seq
}

/// A copy that another takes the place of is over, whether that was made here or
/// elsewhere: whoever waited for it is told that it is stale, and what was being
/// fetched of it is called off where it was asked for.
pub proof fn a_copy_that_is_replaced_is_called_off(
    s: ExchangeView,
    available: Seq<FormatView>,
    from: DeviceId,
    offer: OfferView,
    now: u64,
    f: FormatView,
    w: WaitingView,
    k: KeyView,
    fetch: FetchingView,
)
    requires
        s.enabled,
        s.counter < u64::MAX,
        s.allowed.contains(f),
        !(s.local is Some && s.remote is Some),
        s.waiting.contains(w),
        s.fetching.contains((k, fetch)),
    ensures
        ({
            let here = s.step(InputView::LocalChanged(available), now).out;
            let there = s.step(
                InputView::FromPeer { from, msg: BulkView::ClipOffer(offer) },
                now,
            ).out;
            &&& available.contains(f) && !comes_back(s, available, now) ==> (is_current(s, w.key.seq)
                ==> told_it_is_over(here, w)) && (is_current(s, k.seq) ==> called_off(here, k, fetch))
            &&& names(offer, f) && (s.remote is Some ==> s.remote->0.seq != offer.seq) ==> (is_current(
                s,
                w.key.seq,
            ) ==> told_it_is_over(there, w)) && (is_current(s, k.seq) ==> called_off(there, k, fetch))
        }),
{
    let none = Seq::<OutputView>::empty();
    if available.contains(f) && !comes_back(s, available, now) {
        a_copy_here_is_offered_everywhere(s, available, now, f);
        let formats = available.filter(|f: FormatView| s.allowed.contains(f));
        let seq = ClipSeq { device: s.me, counter: (s.counter + 1) as u64 };
        let told = crate::exchange::to_each(
            s.peers,
            BulkView::ClipOffer(crate::exchange::announcement(seq, formats)),
        );
        let here = s.step(InputView::LocalChanged(available), now).out;
        replaced_out(s, None);
        let a = s.forget_local();
        let b = a.followed_by(a.after.forget_remote(None));
        assert(here == b.out + told);
        assert(is_current(s, w.key.seq) ==> told_it_is_over(b.out, w));
        assert(is_current(s, k.seq) ==> called_off(b.out, k, fetch));
        more_says_as_much(b.out, none, told);
        assert(none + b.out + told =~= here);
    }
    if names(offer, f) && (s.remote is Some ==> s.remote->0.seq != offer.seq) {
        let i = choose|i: int| 0 <= i < offer.entries.len() && (#[trigger] offer.entries[i]).format == f;
        a_copy_elsewhere_is_taken_up_and_passed_on(s, from, offer, now, i);
        let named = offer.entries.map_values(|e: EntryView| e.format);
        let formats = named.filter(|f: FormatView| s.allowed.contains(f));
        let rest = seq![OutputView::OfferLocally { seq: offer.seq, formats }]
            + crate::exchange::to_each(
            without_item(s.peers, from),
            BulkView::ClipOffer(crate::exchange::announcement(offer.seq, formats)),
        );
        let there = s.step(
            InputView::FromPeer { from, msg: BulkView::ClipOffer(offer) },
            now,
        ).out;
        replaced_out(s, Some(offer.seq));
        let a = s.forget_local();
        let b = a.followed_by(a.after.forget_remote(Some(offer.seq)));
        assert(there =~= none + b.out + rest);
        assert(is_current(s, w.key.seq) ==> told_it_is_over(b.out, w));
        assert(is_current(s, k.seq) ==> called_off(b.out, k, fetch));
        more_says_as_much(b.out, none, rest);
    }
}

/// Whether an offer names a format.
pub open spec fn names(offer: OfferView, f: FormatView) -> bool {
    exists|i: int| 0 <= i < offer.entries.len() && (#[trigger] offer.entries[i]).format == f
}

proof fn replaced_out(s: ExchangeView, except: Option<ClipSeq>)
    requires
        !(s.local is Some && s.remote is Some),
        s.remote is Some ==> except != Some(s.remote->0.seq),
    ensures
        ({
            let a = s.forget_local();
            let out = a.followed_by(a.after.forget_remote(except)).out;
            &&& forall|w: WaitingView|
                s.waiting.contains(w) && is_current(s, w.key.seq) ==> #[trigger] told_it_is_over(out, w)
            &&& forall|k: KeyView, f: FetchingView|
                s.fetching.contains((k, f)) && is_current(s, k.seq) ==> #[trigger] called_off(out, k, f)
        }),
{
    let none = Seq::<OutputView>::empty();
    let a = s.forget_local();
    let out = a.followed_by(a.after.forget_remote(except)).out;
    if let Some(own) = s.local {
        let bare = ExchangeView { local: None, ..s };
        forgetting_calls_off(bare, own.seq);
        forgetting_offers_nothing(bare, own.seq);
        assert(out =~= bare.forget(own.seq).out);
    }
    if let Some(held) = s.remote {
        let bare = ExchangeView { remote: None, ..s };
        forgetting_calls_off(bare, held.seq);
        assert(a.after == s);
        assert(out =~= bare.forget(held.seq).out);
    }
}

/// The same copy offered again, by whichever way, disturbs nothing that is under
/// way: what was fetched is kept, and whoever waits goes on waiting.
pub proof fn a_renewed_offer_keeps_what_is_under_way(
    s: ExchangeView,
    from: DeviceId,
    offer: OfferView,
    now: u64,
    f: FormatView,
)
    requires
        s.enabled,
        s.allowed.contains(f),
        names(offer, f),
        s.local is None,
        s.remote is Some,
        s.remote->0.seq == offer.seq,
    ensures
        ({
            let after = s.step(
                InputView::FromPeer { from, msg: BulkView::ClipOffer(offer) },
                now,
            ).after;
            &&& after.waiting == s.waiting
            &&& after.fetching == s.fetching
            &&& after.reading == s.reading
            &&& after.cache == s.cache
            &&& after.remote is Some && after.remote->0.seq == offer.seq && after.remote->0.from
                == from
        }),
{
    let named = offer.entries.map_values(|e: EntryView| e.format);
    let i = choose|i: int| 0 <= i < offer.entries.len() && (#[trigger] offer.entries[i]).format == f;
    assert(named[i] == f);
    the_shared_formats(named, s.allowed);
    assert(named.contains(f));
    assert(named.filter(|f: FormatView| s.allowed.contains(f)).contains(f));
}

/// A machine that goes leaves what is here alone unless the clipboard is held from
/// it: then it is given back, and only then.
pub proof fn a_clipboard_held_from_a_machine_that_goes_is_given_back(
    s: ExchangeView,
    peer: DeviceId,
    now: u64,
    other: DeviceId,
)
    ensures
        ({
            let step = s.step(InputView::PeerGone(peer), now);
            let held = s.remote is Some && s.remote->0.from == peer;
            &&& held ==> step.after.remote is None && step.out.len() > 0 && step.out.last()
                == OutputView::ReleaseLocally
            &&& !held ==> step.after.remote == s.remote && step.after.cache == s.cache
                && step.after.reading == s.reading && forall|i: int|
                0 <= i < step.out.len() ==> !((#[trigger] step.out[i]) is ReleaseLocally)
            &&& step.after.local == s.local
            &&& step.after.peers.contains(other) == (s.peers.contains(other) && other != peer)
            &&& step.after.counter == s.counter && step.after.enabled == s.enabled
        }),
{
    s.departing_keeps_the_rest(peer);
    crate::table::without_item_filters(s.peers, peer, |p: DeviceId| p != peer);
    filter_members(s.peers, |p: DeviceId| p != peer);
    let cut = ExchangeView {
        peers: without_item(s.peers, peer),
        fetching: s.fetching.filter(|e: (KeyView, FetchingView)| e.1.from != peer),
        ..s
    };
    cut.failing_keeps_the_rest(s.fetched_from(peer), ClipError::Cancelled);
    failing_gives_nothing_back(cut, s.fetched_from(peer), ClipError::Cancelled);
    let failed = cut.fail_each(s.fetched_from(peer), ClipError::Cancelled);
    let left = ExchangeView {
        waiting: failed.after.waiting.filter(
            |w: WaitingView| !(w.who is Relay && w.who->to == peer),
        ),
        ..failed.after
    };
    if s.remote is Some && s.remote->0.from == peer {
        ExchangeView { remote: None, ..left }.forget_keeps_the_rest(s.remote->0.seq);
    }
}

/// Whoever waits for something that does not come from the machine that goes, and
/// is not that machine, goes on waiting, as long as the copy is still there.
pub proof fn the_others_go_on_waiting(
    s: ExchangeView,
    peer: DeviceId,
    now: u64,
    w: WaitingView,
    key: KeyView,
    fetch: FetchingView,
)
    requires
        !(s.remote is Some && s.remote->0.from == peer),
    ensures
        ({
            let after = s.step(InputView::PeerGone(peer), now).after;
            let coming = forall|e: (KeyView, FetchingView)| #[trigger]
                s.fetching.contains(e) && e.1.from == peer ==> e.0 != w.key;
            let leaving = w.who is Relay && w.who->to == peer;
            &&& s.waiting.contains(w) && coming && !leaving ==> after.waiting.contains(w)
            &&& leaving ==> !after.waiting.contains(w)
            &&& s.fetching.contains((key, fetch)) && fetch.from != peer ==> after.fetching.contains(
                (key, fetch),
            )
        }),
{
    let keep = |e: (KeyView, FetchingView)| e.1.from != peer;
    let lost = |e: (KeyView, FetchingView)| e.1.from == peer;
    let staying = |w: WaitingView| !(w.who is Relay && w.who->to == peer);
    let cut = ExchangeView {
        peers: without_item(s.peers, peer),
        fetching: s.fetching.filter(keep),
        ..s
    };
    let keys = s.fetched_from(peer);
    filter_members(s.fetching, keep);
    filter_members(s.fetching, lost);
    cut.failing_keeps_the_rest(keys, ClipError::Cancelled);
    failing_leaves_the_others(cut, keys, ClipError::Cancelled);
    let failed = cut.fail_each(keys, ClipError::Cancelled);
    filter_members(failed.after.waiting, staying);
    if keys.contains(w.key) {
        let i = choose|i: int| 0 <= i < keys.len() && keys[i] == w.key;
        let e = s.fetching.filter(lost)[i];
        assert(s.fetching.filter(lost).contains(e));
        assert(s.fetching.contains(e) && e.1.from == peer && e.0 == w.key);
    }
}

proof fn failing_gives_nothing_back(s: ExchangeView, keys: Seq<KeyView>, why: ClipError)
    ensures
        forall|i: int|
            0 <= i < s.fail_each(keys, why).out.len() ==> !((#[trigger] s.fail_each(keys, why).out[i])
                is ReleaseLocally),
    decreases keys.len(),
{
    if keys.len() > 0 {
        failing_gives_nothing_back(s, keys.drop_last(), why);
    }
}

// --- asking for contents ----------------------------------------------------------------

/// Whether this is the piece of some contents that begins at an offset, as much
/// of it as one message carries, and says rightly whether it is the last.
pub open spec fn piece_of_contents(msg: BulkView, key: KeyView, contents: Seq<u8>, offset: u64) -> bool {
    &&& msg is ClipChunk
    &&& msg->ClipChunk_seq == key.seq
    &&& msg->ClipChunk_format == key.format
    &&& offset <= contents.len() ==> msg->ClipChunk_offset == offset
    &&& offset > contents.len() ==> msg->ClipChunk_offset == contents.len()
    &&& msg->ClipChunk_data.len() <= MAX_CHUNK_DATA
    &&& msg->ClipChunk_offset + msg->ClipChunk_data.len() <= contents.len()
    &&& forall|i: int|
        0 <= i < msg->ClipChunk_data.len() ==> #[trigger] msg->ClipChunk_data[i]
            == contents[msg->ClipChunk_offset + i]
    &&& msg->ClipChunk_last == (msg->ClipChunk_offset + msg->ClipChunk_data.len()
        == contents.len())
    &&& !msg->ClipChunk_last ==> msg->ClipChunk_data.len() == MAX_CHUNK_DATA
}

/// A request from another machine: contents at hand are sent, from where they
/// were asked for; those of a copy made here are read off the clipboard, once;
/// those held from a third machine are asked of that one, from the beginning, once;
/// and anything else is said to be gone. Whoever is not answered at once waits.
pub proof fn a_request_is_dealt_with(
    s: ExchangeView,
    from: DeviceId,
    seq: ClipSeq,
    format: FormatView,
    offset: u64,
    now: u64,
)
    requires
        forall|k: KeyView| #[trigger] value_of(s.cache, k) is Some ==> value_of(s.cache, k)->0.len() <= u64::MAX,
    ensures
        ({
            let key = KeyView { seq, format };
            let msg = BulkView::ClipRequest { seq, format, offset };
            let step = s.step(InputView::FromPeer { from, msg }, now);
            let at_hand = value_of(s.cache, key);
            let own = s.local is Some && s.local->0.seq == seq && s.local->0.formats.contains(
                format,
            );
            let held = s.remote is Some && s.remote->0.seq == seq && s.remote->0.formats.contains(
                format,
            ) && s.remote->0.from != from;
            let waits = WaitingView { key, who: Waiter::Relay { to: from, offset } };
            &&& at_hand is Some ==> step.after == s && step.out.len() == 1 && step.out[0] is Send
                && step.out[0]->to == from && piece_of_contents(
                step.out[0]->msg,
                key,
                at_hand->0,
                offset,
            )
            &&& at_hand is None && own ==> step.after.waiting == s.waiting.push(waits)
                && step.after.reading.contains(key) && if s.reading.contains(key) {
                step.out.len() == 0
            } else {
                step.out == seq![OutputView::ReadLocal { seq, format }]
            }
            &&& at_hand is None && !own && held ==> step.after.waiting == s.waiting.push(waits)
                && value_of(step.after.fetching, key) is Some && if value_of(s.fetching, key)
                is Some {
                step.out.len() == 0
            } else {
                step.out == seq![
                    OutputView::Send {
                        to: s.remote->0.from,
                        msg: BulkView::ClipRequest { seq, format, offset: 0 },
                    },
                ]
            }
            &&& at_hand is None && !own && !held ==> step.after == s && step.out == seq![
                OutputView::Send {
                    to: from,
                    msg: BulkView::ClipUnavailable { seq, format, reason: ClipError::Stale },
                },
            ]
        }),
{
    let key = KeyView { seq, format };
    if s.remote is Some {
        stored_reads_back(
            s.fetching,
            key,
            FetchingView { from: s.remote->0.from, buf: Seq::empty() },
            key,
        );
    }
    let after = s.reading.push(key);
    assert(after[after.len() - 1] == key);
}

/// A paste here: contents at hand are delivered; those held from elsewhere are
/// asked of the machine they are held from, from the beginning, once, and the
/// paste waits; anything else is refused as stale.
pub proof fn a_paste_is_dealt_with(
    s: ExchangeView,
    ticket: u64,
    seq: ClipSeq,
    format: FormatView,
    now: u64,
)
    ensures
        ({
            let key = KeyView { seq, format };
            let step = s.step(InputView::Wanted { ticket, seq, format }, now);
            let at_hand = value_of(s.cache, key);
            let held = s.remote is Some && s.remote->0.seq == seq && s.remote->0.formats.contains(
                format,
            );
            &&& at_hand is Some ==> step.after == s && step.out == seq![
                OutputView::Deliver { ticket, result: Ok(at_hand->0) },
            ]
            &&& at_hand is None && held ==> step.after.waiting == s.waiting.push(
                WaitingView { key, who: Waiter::Ticket(ticket) },
            ) && value_of(step.after.fetching, key) is Some && (value_of(s.fetching, key) is None
                ==> value_of(step.after.fetching, key)->0.from == s.remote->0.from && value_of(
                step.after.fetching,
                key,
            )->0.buf.len() == 0 && step.out == seq![
                OutputView::Send {
                    to: s.remote->0.from,
                    msg: BulkView::ClipRequest { seq, format, offset: 0 },
                },
            ]) && (value_of(s.fetching, key) is Some ==> step.out.len() == 0)
            &&& at_hand is None && !held ==> step.after == s && step.out == seq![
                OutputView::Deliver { ticket, result: Err(ClipError::Stale) },
            ]
        }),
{
    let key = KeyView { seq, format };
    if s.remote is Some {
        stored_reads_back(
            s.fetching,
            key,
            FetchingView { from: s.remote->0.from, buf: Seq::empty() },
            key,
        );
    }
}

// --- contents arriving -----------------------------------------------------------------------

/// Whether this tells someone who waited that they will not get it, and why.
pub open spec fn told_why(o: OutputView, w: WaitingView, why: ClipError) -> bool {
    match w.who {
        Waiter::Ticket(ticket) => o == (OutputView::Deliver { ticket, result: Err(why) }),
        Waiter::Relay { to, offset } => o == (OutputView::Send {
            to,
            msg: BulkView::ClipUnavailable { seq: w.key.seq, format: w.key.format, reason: why },
        }),
    }
}

/// Whether this gives someone who waited what they waited for.
pub open spec fn given(o: OutputView, w: WaitingView, contents: Seq<u8>) -> bool {
    match w.who {
        Waiter::Ticket(ticket) => o == (OutputView::Deliver { ticket, result: Ok(contents) }),
        Waiter::Relay { to, offset } => o is Send && o->to == to && piece_of_contents(
            o->msg,
            w.key,
            contents,
            offset,
        ),
    }
}

proof fn everyone_is_given(s: ExchangeView, key: KeyView, contents: Seq<u8>, w: WaitingView)
    requires
        s.waiting.contains(w),
        contents.len() <= u64::MAX,
    ensures
        w.key == key ==> exists|i: int|
            0 <= i < s.serve(key, contents).out.len() && given(
                #[trigger] s.serve(key, contents).out[i],
                w,
                contents,
            ),
        w.key == key ==> !s.serve(key, contents).after.waiting.contains(w),
        w.key != key ==> s.serve(key, contents).after.waiting.contains(w),
        value_of(s.serve(key, contents).after.cache, key) == Some(contents),
{
    let ready = s.waiting.filter(waits_for(key));
    filter_members(s.waiting, waits_for(key));
    filter_members(s.waiting, waits_for_other(key));
    stored_reads_back(s.cache, key, contents, key);
    if w.key == key {
        assert(ready.contains(w));
        let i = choose|i: int| 0 <= i < ready.len() && ready[i] == w;
        assert(given(s.serve(key, contents).out[i], w, contents));
    }
}

proof fn everyone_is_told(s: ExchangeView, key: KeyView, why: ClipError, w: WaitingView)
    requires
        s.waiting.contains(w),
    ensures
        w.key == key ==> exists|i: int|
            0 <= i < s.fail(key, why).out.len() && told_why(
                #[trigger] s.fail(key, why).out[i],
                w,
                why,
            ),
        w.key == key ==> !s.fail(key, why).after.waiting.contains(w),
        w.key != key ==> s.fail(key, why).after.waiting.contains(w),
{
    let ready = s.waiting.filter(waits_for(key));
    filter_members(s.waiting, waits_for(key));
    filter_members(s.waiting, waits_for_other(key));
    if w.key == key {
        assert(ready.contains(w));
        let i = choose|i: int| 0 <= i < ready.len() && ready[i] == w;
        assert(told_why(s.fail(key, why).out[i], w, why));
    }
}

/// A piece that is not the last, and follows on from what is here, is kept, and
/// the next is asked for where it ends.
pub proof fn the_next_piece_is_asked_for(
    s: ExchangeView,
    from: DeviceId,
    key: KeyView,
    data: Seq<u8>,
    now: u64,
)
    requires
        value_of(s.fetching, key) is Some,
        value_of(s.fetching, key)->0.from == from,
        value_of(s.fetching, key)->0.buf.len() + data.len() <= s.max_bytes,
    ensures
        ({
            let here = value_of(s.fetching, key)->0.buf;
            let msg = BulkView::ClipChunk {
                seq: key.seq,
                format: key.format,
                offset: here.len() as u64,
                data,
                last: false,
            };
            let step = s.step(InputView::FromPeer { from, msg }, now);
            &&& step.out == seq![
                OutputView::Send {
                    to: from,
                    msg: BulkView::ClipRequest {
                        seq: key.seq,
                        format: key.format,
                        offset: (here.len() + data.len()) as u64,
                    },
                },
            ]
            &&& value_of(step.after.fetching, key) == Some(FetchingView { from, buf: here + data })
            &&& step.after.waiting == s.waiting
            &&& step.after.cache == s.cache
        }),
{
    let here = value_of(s.fetching, key)->0.buf;
    assert(key == KeyView { seq: key.seq, format: key.format });
    stored_reads_back(s.fetching, key, FetchingView { from, buf: here + data }, key);
}

/// The last piece, where it follows on from what is here, gives everyone who
/// waited all of it, and it is kept for the next who asks.
pub proof fn the_last_piece_answers_everyone(
    s: ExchangeView,
    from: DeviceId,
    key: KeyView,
    data: Seq<u8>,
    now: u64,
    w: WaitingView,
)
    requires
        keyed(s.fetching),
        value_of(s.fetching, key) is Some,
        value_of(s.fetching, key)->0.from == from,
        value_of(s.fetching, key)->0.buf.len() + data.len() <= s.max_bytes,
        s.waiting.contains(w),
        w.key == key,
    ensures
        ({
            let here = value_of(s.fetching, key)->0.buf;
            let msg = BulkView::ClipChunk {
                seq: key.seq,
                format: key.format,
                offset: here.len() as u64,
                data,
                last: true,
            };
            let step = s.step(InputView::FromPeer { from, msg }, now);
            &&& exists|i: int|
                0 <= i < step.out.len() && given(#[trigger] step.out[i], w, here + data)
            &&& value_of(step.after.cache, key) == Some(here + data)
            &&& value_of(step.after.fetching, key) is None
            &&& !step.after.waiting.contains(w)
        }),
{
    let here = value_of(s.fetching, key)->0.buf;
    assert(key == KeyView { seq: key.seq, format: key.format });
    let other = |e: (KeyView, FetchingView)| e.0 != key;
    erased_filters(s.fetching, key, other);
    filtered_reads_back(s.fetching, other, key);
    let cut = ExchangeView { fetching: crate::table::erased(s.fetching, key), ..s };
    everyone_is_given(cut, key, here + data, w);
}

/// A piece that does not follow on, or would bring more than may be carried,
/// ends the fetch: the other machine is told to stop, and everyone who waited
/// why. A piece that nobody asked that machine for is nothing.
pub proof fn a_piece_that_does_not_fit_ends_the_fetch(
    s: ExchangeView,
    from: DeviceId,
    key: KeyView,
    offset: u64,
    data: Seq<u8>,
    last: bool,
    now: u64,
    w: WaitingView,
)
    requires
        keyed(s.fetching),
        s.waiting.contains(w),
        w.key == key,
        data.len() <= u64::MAX - s.max_bytes,
        value_of(s.fetching, key) is Some ==> value_of(s.fetching, key)->0.buf.len() <= s.max_bytes,
    ensures
        ({
            let fetch = value_of(s.fetching, key)->0;
            let msg = BulkView::ClipChunk { seq: key.seq, format: key.format, offset, data, last };
            let step = s.step(InputView::FromPeer { from, msg }, now);
            let cancel = OutputView::Send {
                to: from,
                msg: BulkView::ClipCancel { seq: key.seq, format: key.format },
            };
            let size = fetch.buf.len() + data.len();
            &&& value_of(s.fetching, key) is None || fetch.from != from ==> step.after == s
                && step.out.len() == 0
            &&& value_of(s.fetching, key) is Some && fetch.from == from && offset
                != fetch.buf.len() ==> step.out.len() > 0 && step.out[0] == cancel && value_of(
                step.after.fetching,
                key,
            ) is None && exists|i: int|
                0 <= i < step.out.len() && told_why(#[trigger] step.out[i], w, ClipError::Cancelled)
            &&& value_of(s.fetching, key) is Some && fetch.from == from && offset
                == fetch.buf.len() && size > s.max_bytes ==> step.out.len() > 0 && step.out[0]
                == cancel && value_of(step.after.fetching, key) is None && exists|i: int|
                0 <= i < step.out.len() && told_why(
                    #[trigger] step.out[i],
                    w,
                    ClipError::TooLarge { bytes: size as u64, limit: s.max_bytes },
                )
        }),
{
    assert(key == KeyView { seq: key.seq, format: key.format });
    if let Some(fetch) = value_of(s.fetching, key) {
        let other = |e: (KeyView, FetchingView)| e.0 != key;
        erased_filters(s.fetching, key, other);
        filtered_reads_back(s.fetching, other, key);
        let cut = ExchangeView { fetching: crate::table::erased(s.fetching, key), ..s };
        let size = fetch.buf.len() + data.len();
        let msg = BulkView::ClipChunk { seq: key.seq, format: key.format, offset, data, last };
        let out = s.step(InputView::FromPeer { from, msg }, now).out;
        if fetch.from == from && offset != fetch.buf.len() {
            everyone_is_told(cut, key, ClipError::Cancelled, w);
            let told = cut.fail(key, ClipError::Cancelled).out;
            let i = choose|i: int|
                0 <= i < told.len() && told_why(#[trigger] told[i], w, ClipError::Cancelled);
            assert(out[i + 1] == told[i]);
        } else if fetch.from == from && size > s.max_bytes {
            let why = ClipError::TooLarge { bytes: size as u64, limit: s.max_bytes };
            everyone_is_told(cut, key, why, w);
            let told = cut.fail(key, why).out;
            let i = choose|i: int| 0 <= i < told.len() && told_why(#[trigger] told[i], w, why);
            assert(out[i + 1] == told[i]);
        }
    }
}

/// Another machine will not hand contents over: everyone who waited is told the
/// reason it gave.
pub proof fn a_refusal_is_passed_on(
    s: ExchangeView,
    from: DeviceId,
    key: KeyView,
    reason: ClipError,
    now: u64,
    w: WaitingView,
)
    requires
        keyed(s.fetching),
        s.waiting.contains(w),
        w.key == key,
    ensures
        ({
            let msg = BulkView::ClipUnavailable { seq: key.seq, format: key.format, reason };
            let step = s.step(InputView::FromPeer { from, msg }, now);
            let asked = value_of(s.fetching, key) is Some && value_of(s.fetching, key)->0.from
                == from;
            &&& asked ==> value_of(step.after.fetching, key) is None && exists|i: int|
                0 <= i < step.out.len() && told_why(#[trigger] step.out[i], w, reason)
            &&& !asked ==> step.after == s && step.out.len() == 0
        }),
{
    assert(key == KeyView { seq: key.seq, format: key.format });
    let other = |e: (KeyView, FetchingView)| e.0 != key;
    erased_filters(s.fetching, key, other);
    filtered_reads_back(s.fetching, other, key);
    let cut = ExchangeView { fetching: crate::table::erased(s.fetching, key), ..s };
    everyone_is_told(cut, key, reason, w);
}

/// The clipboard here has been read: whoever waited is given what was read, or
/// told that it was too much, or that the copy is over by now, or why it could
/// not be read.
pub proof fn what_was_read_is_handed_over(
    s: ExchangeView,
    key: KeyView,
    result: Result<Seq<u8>, ClipError>,
    now: u64,
    w: WaitingView,
)
    requires
        s.waiting.contains(w),
        w.key == key,
        result is Ok ==> result->Ok_0.len() <= u64::MAX,
    ensures
        ({
            let step = s.step(
                InputView::ReadDone { seq: key.seq, format: key.format, result },
                now,
            );
            let current = s.local is Some && s.local->0.seq == key.seq;
            &&& !step.after.reading.contains(key)
            &&& !step.after.waiting.contains(w)
            &&& result is Ok && current && result->Ok_0.len() <= s.max_bytes ==> value_of(
                step.after.cache,
                key,
            ) == Some(result->Ok_0) && exists|i: int|
                0 <= i < step.out.len() && given(#[trigger] step.out[i], w, result->Ok_0)
            &&& result is Ok && current && result->Ok_0.len() > s.max_bytes ==> step.after.cache
                == s.cache && exists|i: int|
                0 <= i < step.out.len() && told_why(
                    #[trigger] step.out[i],
                    w,
                    ClipError::TooLarge {
                        bytes: result->Ok_0.len() as u64,
                        limit: s.max_bytes,
                    },
                )
            &&& result is Ok && !current ==> step.after.cache == s.cache && exists|i: int|
                0 <= i < step.out.len() && told_why(#[trigger] step.out[i], w, ClipError::Stale)
            &&& result is Err ==> step.after.cache == s.cache && exists|i: int|
                0 <= i < step.out.len() && told_why(#[trigger] step.out[i], w, result->Err_0)
        }),
{
    assert(key == KeyView { seq: key.seq, format: key.format });
    let p = |k: KeyView| k != key;
    without_item_filters(s.reading, key, p);
    filter_members(s.reading, p);
    let read = ExchangeView { reading: without_item(s.reading, key), ..s };
    match result {
        Ok(data) => {
            everyone_is_given(read, key, data, w);
            everyone_is_told(read, key, ClipError::Stale, w);
            everyone_is_told(
                read,
                key,
                ClipError::TooLarge { bytes: data.len() as u64, limit: s.max_bytes },
                w,
            );
        },
        Err(why) => {
            everyone_is_told(read, key, why, w);
        },
    }
}

// --- what may be shared ------------------------------------------------------------------------

/// Whether a name is one of these, whatever its letters' size and the space
/// around it.
pub open spec fn is_called(name: Seq<char>, word: Seq<char>) -> bool {
    lower(trim(name)) == word
}

pub open spec fn names_format(name: Seq<char>, f: FormatView) -> bool {
    match f {
        FormatView::Text => is_called(name, "text"@) || is_called(name, "plain"@),
        FormatView::Html => is_called(name, "html"@),
        FormatView::Png => is_called(name, "image"@) || is_called(name, "images"@) || is_called(
            name,
            "png"@,
        ),
        FormatView::Uris => is_called(name, "file"@) || is_called(name, "files"@) || is_called(
            name,
            "uris"@,
        ),
        _ => false,
    }
}

/// The formats in the configuration are those it names, each once.
pub proof fn the_configuration_names_the_formats(names: Seq<Seq<char>>, f: FormatView)
    ensures
        formats_named(names).contains(f) <==> exists|i: int|
            0 <= i < names.len() && names_format(#[trigger] names[i], f),
        formats_named(names).no_duplicates(),
    decreases names.len(),
{
    reveal_strlit("text");
    reveal_strlit("plain");
    reveal_strlit("html");
    reveal_strlit("image");
    reveal_strlit("images");
    reveal_strlit("png");
    reveal_strlit("file");
    reveal_strlit("files");
    reveal_strlit("uris");
    if names.len() > 0 {
        let fewer = names.drop_last();
        let earlier = formats_named(fewer);
        let last = names.last();
        the_configuration_names_the_formats(fewer, f);
        assert("text"@[0] == 't' && "plain"@[0] == 'p' && "plain"@[1] == 'l');
        assert("html"@[0] == 'h' && "image"@[0] == 'i' && "images"@[0] == 'i');
        assert("png"@[0] == 'p' && "png"@[1] == 'n' && "file"@[0] == 'f' && "files"@[0] == 'f'
            && "uris"@[0] == 'u');
        assert(names_format(last, f) <==> format_named(last) == Some(f));
        if format_named(last) is Some && !earlier.contains(format_named(last)->0) {
            let all = formats_named(names);
            assert(all == earlier.push(format_named(last)->0));
            if earlier.contains(f) {
                let i = choose|i: int| 0 <= i < earlier.len() && earlier[i] == f;
                assert(all[i] == f);
            }
            assert(all[all.len() - 1] == format_named(last)->0);
        }
        if exists|i: int| 0 <= i < fewer.len() && names_format(#[trigger] fewer[i], f) {
            let i = choose|i: int| 0 <= i < fewer.len() && names_format(#[trigger] fewer[i], f);
            assert(names_format(names[i], f));
        }
        if names_format(last, f) {
            assert(names_format(names[names.len() - 1], f));
        }
        if exists|i: int| 0 <= i < names.len() && names_format(#[trigger] names[i], f) {
            let i = choose|i: int| 0 <= i < names.len() && names_format(#[trigger] names[i], f);
            if i < fewer.len() {
                assert(names_format(fewer[i], f));
            }
        }
    }
}

} // verus!
