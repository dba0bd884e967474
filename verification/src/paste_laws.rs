//! A paste is answered, and answered once: whatever becomes of the copy it is
//! of, and of the machine that has it.

use vstd::prelude::*;

use crate::exchange::{
    answer, cancelled, refusal, waits_for, waits_for_other, ExchangeView, FetchingView, InputView,
    OutputView, Step, Waiter, WaitingView,
};
use crate::exchange_laws::{
    a_machine_that_leaves_is_forgotten, dropping_offers_stays_sound, failing_leaves_the_others,
    sound, soundness_is_kept,
};
use crate::layout::DeviceId;
use crate::proto::{BulkView, ClipError, ClipSeq, FormatView, KeyView};
use crate::table::{filter_members, value_of, value_of_finds, without_item};

verus! {

/// Whether a paste is waiting.
pub open spec fn waits(s: ExchangeView, t: u64) -> bool {
    exists|i: int| 0 <= i < s.waiting.len() && (#[trigger] s.waiting[i]).who == Waiter::Ticket(t)
}

/// Whether this answers a paste.
pub open spec fn answers_paste(t: u64) -> spec_fn(OutputView) -> bool {
    |o: OutputView| o is Deliver && o->ticket == t
}

/// Whether this is a new paste.
pub open spec fn begins_paste(input: InputView, t: u64) -> bool {
    input is Wanted && input->ticket == t
}

/// How often a paste is waiting.
pub open spec fn places(waiting: Seq<WaitingView>, t: u64) -> nat
    decreases waiting.len(),
{
    if waiting.len() == 0 {
        0
    } else {
        places(waiting.drop_last(), t) + if waiting.last().who == Waiter::Ticket(t) {
            1nat
        } else {
            0nat
        }
    }
}

/// How often a paste is answered.
pub open spec fn told(out: Seq<OutputView>, t: u64) -> nat
    decreases out.len(),
{
    if out.len() == 0 {
        0
    } else {
        told(out.drop_last(), t) + if answers_paste(t)(out.last()) {
            1nat
        } else {
            0nat
        }
    }
}

// --- counting -----------------------------------------------------------------

proof fn told_is_how_many(out: Seq<OutputView>, t: u64)
    ensures
        told(out, t) == out.filter(answers_paste(t)).len(),
    decreases out.len(),
{
    reveal(Seq::filter);
    if out.len() > 0 {
        told_is_how_many(out.drop_last(), t);
    }
}

proof fn told_one_after_the_other(a: Seq<OutputView>, b: Seq<OutputView>, t: u64)
    ensures
        told(a + b, t) == told(a, t) + told(b, t),
    decreases b.len(),
{
    if b.len() == 0 {
        assert(a + b =~= a);
    } else {
        assert((a + b).drop_last() =~= a + b.drop_last());
        told_one_after_the_other(a, b.drop_last(), t);
    }
}

proof fn nobody_is_told(out: Seq<OutputView>, t: u64)
    requires
        forall|i: int| 0 <= i < out.len() ==> !((#[trigger] out[i]) is Deliver),
    ensures
        told(out, t) == 0,
    decreases out.len(),
{
    if out.len() > 0 {
        assert(!(out[out.len() - 1] is Deliver));
        assert forall|i: int| 0 <= i < out.drop_last().len() implies !((#[trigger] out.drop_last()[i])
            is Deliver) by {
            assert(out.drop_last()[i] == out[i]);
        }
        nobody_is_told(out.drop_last(), t);
    }
}

proof fn one_is_told(o: OutputView, t: u64)
    ensures
        told(seq![o], t) == if answers_paste(t)(o) {
            1nat
        } else {
            0nat
        },
{
    assert(seq![o].drop_last() =~= seq![]);
    reveal_with_fuel(told, 2);
}

proof fn waiting_is_somewhere(waiting: Seq<WaitingView>, t: u64)
    ensures
        places(waiting, t) > 0 <==> exists|i: int|
            0 <= i < waiting.len() && (#[trigger] waiting[i]).who == Waiter::Ticket(t),
    decreases waiting.len(),
{
    if waiting.len() > 0 {
        let front = waiting.drop_last();
        waiting_is_somewhere(front, t);
        if waiting.last().who == Waiter::Ticket(t) {
            assert(waiting[waiting.len() - 1].who == Waiter::Ticket(t));
        }
        if exists|i: int| 0 <= i < front.len() && (#[trigger] front[i]).who == Waiter::Ticket(t) {
            let i = choose|i: int|
                0 <= i < front.len() && (#[trigger] front[i]).who == Waiter::Ticket(t);
            assert(waiting[i].who == Waiter::Ticket(t));
        }
        if exists|i: int|
            0 <= i < waiting.len() && (#[trigger] waiting[i]).who == Waiter::Ticket(t) {
            let i = choose|i: int|
                0 <= i < waiting.len() && (#[trigger] waiting[i]).who == Waiter::Ticket(t);
            if i < front.len() {
                assert(front[i].who == Waiter::Ticket(t));
            }
        }
    }
}

/// Sorted in two, everyone is in one part or the other.
proof fn sorted_in_two(
    waiting: Seq<WaitingView>,
    p: spec_fn(WaitingView) -> bool,
    q: spec_fn(WaitingView) -> bool,
    t: u64,
)
    requires
        forall|w: WaitingView| #[trigger] p(w) != #[trigger] q(w),
    ensures
        places(waiting.filter(p), t) + places(waiting.filter(q), t) == places(waiting, t),
    decreases waiting.len(),
{
    reveal(Seq::filter);
    if waiting.len() > 0 {
        let front = waiting.drop_last();
        let w = waiting.last();
        sorted_in_two(front, p, q, t);
        assert(p(w) != q(w));
        assert(front.filter(p).push(w).drop_last() =~= front.filter(p));
        assert(front.filter(q).push(w).drop_last() =~= front.filter(q));
    }
}

proof fn each_is_refused(waiting: Seq<WaitingView>, why: ClipError, t: u64)
    ensures
        told(waiting.map_values(|w: WaitingView| refusal(w, why)), t) == places(waiting, t),
    decreases waiting.len(),
{
    let f = |w: WaitingView| refusal(w, why);
    if waiting.len() > 0 {
        each_is_refused(waiting.drop_last(), why, t);
        assert(waiting.map_values(f).drop_last() =~= waiting.drop_last().map_values(f));
    }
}

proof fn each_is_answered(waiting: Seq<WaitingView>, data: Seq<u8>, t: u64)
    ensures
        told(waiting.map_values(|w: WaitingView| answer(w, data)), t) == places(waiting, t),
    decreases waiting.len(),
{
    let f = |w: WaitingView| answer(w, data);
    if waiting.len() > 0 {
        each_is_answered(waiting.drop_last(), data, t);
        assert(waiting.map_values(f).drop_last() =~= waiting.drop_last().map_values(f));
    }
}

// --- nobody is dropped in silence, nobody is told twice -------------------------

/// Whoever waited before waits still, or has been told.
pub open spec fn accounted(s: ExchangeView, step: Step, t: u64) -> bool {
    told(step.out, t) + places(step.after.waiting, t) == places(s.waiting, t)
}

proof fn failing_tells(s: ExchangeView, key: KeyView, why: ClipError, t: u64)
    ensures
        accounted(s, s.fail(key, why), t),
{
    sorted_in_two(s.waiting, waits_for(key), waits_for_other(key), t);
    each_is_refused(s.waiting.filter(waits_for(key)), why, t);
}

proof fn serving_tells(s: ExchangeView, key: KeyView, data: Seq<u8>, t: u64)
    ensures
        accounted(s, s.serve(key, data), t),
{
    sorted_in_two(s.waiting, waits_for(key), waits_for_other(key), t);
    each_is_answered(s.waiting.filter(waits_for(key)), data, t);
}

proof fn failing_each_tells(s: ExchangeView, keys: Seq<KeyView>, why: ClipError, t: u64)
    ensures
        accounted(s, s.fail_each(keys, why), t),
    decreases keys.len(),
{
    if keys.len() > 0 {
        let before = s.fail_each(keys.drop_last(), why);
        failing_each_tells(s, keys.drop_last(), why, t);
        failing_tells(before.after, keys.last(), why, t);
        told_one_after_the_other(before.out, before.after.fail(keys.last(), why).out, t);
    }
}

proof fn forgetting_tells(s: ExchangeView, seq: ClipSeq, t: u64)
    ensures
        accounted(s, s.forget(seq), t),
{
    let cleared = ExchangeView {
        cache: s.cache.filter(|e: (KeyView, Seq<u8>)| e.0.seq != seq),
        reading: s.reading.filter(|k: KeyView| k.seq != seq),
        fetching: s.fetching.filter(|e: (KeyView, FetchingView)| e.0.seq != seq),
        ..s
    };
    let cancels = s.fetching.filter(
        |e: (KeyView, FetchingView)| e.0.seq == seq,
    ).map_values(|e: (KeyView, FetchingView)| cancelled(e));
    let keys = s.wanted_formats(seq).map_values(|f: FormatView| KeyView { seq, format: f });
    nobody_is_told(cancels, t);
    failing_each_tells(cleared, keys, ClipError::Stale, t);
    told_one_after_the_other(cancels, cleared.fail_each(keys, ClipError::Stale).out, t);
}

proof fn dropping_offers_tells(s: ExchangeView, except: Option<ClipSeq>, t: u64)
    ensures
        ({
            let a = s.forget_local();
            &&& accounted(s, a, t)
            &&& accounted(s, a.followed_by(a.after.forget_remote(except)), t)
        }),
{
    let a = s.forget_local();
    if let Some(own) = s.local {
        forgetting_tells(ExchangeView { local: None, ..s }, own.seq, t);
    }
    let b = a.after.forget_remote(except);
    if let Some(held) = a.after.remote {
        forgetting_tells(ExchangeView { remote: None, ..a.after }, held.seq, t);
    }
    told_one_after_the_other(a.out, b.out, t);
}

proof fn a_departure_tells(s: ExchangeView, peer: DeviceId, t: u64)
    ensures
        accounted(s, s.peer_gone(peer), t),
{
    let cut = ExchangeView {
        peers: without_item(s.peers, peer),
        fetching: s.fetching.filter(|e: (KeyView, FetchingView)| e.1.from != peer),
        ..s
    };
    let keys = s.fetched_from(peer);
    let failed = cut.fail_each(keys, ClipError::Cancelled);
    let staying = |w: WaitingView| !(w.who is Relay && w.who->to == peer);
    let leaving = |w: WaitingView| w.who is Relay && w.who->to == peer;
    let left = ExchangeView { waiting: failed.after.waiting.filter(staying), ..failed.after };
    failing_each_tells(cut, keys, ClipError::Cancelled, t);
    sorted_in_two(failed.after.waiting, staying, leaving, t);
    let gone = failed.after.waiting.filter(leaving);
    filter_members(failed.after.waiting, leaving);
    waiting_is_somewhere(gone, t);
    assert forall|i: int| 0 <= i < gone.len() implies (#[trigger] gone[i]).who != Waiter::Ticket(
        t,
    ) by {
        assert(gone.contains(gone[i]));
    }
    if left.remote is Some && left.remote->0.from == peer {
        let bare = ExchangeView { remote: None, ..left };
        let over = left.forget_remote(None);
        forgetting_tells(bare, left.remote->0.seq, t);
        told_one_after_the_other(failed.out, over.out, t);
        told_one_after_the_other(failed.out + over.out, seq![OutputView::ReleaseLocally], t);
        one_is_told(OutputView::ReleaseLocally, t);
        assert((failed.out + over.out).push(OutputView::ReleaseLocally) =~= failed.out + over.out
            + seq![OutputView::ReleaseLocally]);
    }
}

proof fn a_new_copy_tells(s: ExchangeView, input: InputView, now: u64, t: u64)
    requires
        input is LocalChanged || (input is FromPeer && input->msg is ClipOffer),
    ensures
        accounted(s, s.step(input, now), t),
{
    let step = s.step(input, now);
    match input {
        InputView::LocalChanged(available) => {
            dropping_offers_tells(s, None, t);
            let a = s.forget_local();
            let b = a.followed_by(a.after.forget_remote(None));
            if step.out.len() != 0 || step.after != s {
                let news = step.out.skip(b.out.len() as int);
                assert(step.out =~= b.out + news);
                nobody_is_told(news, t);
                told_one_after_the_other(b.out, news, t);
            }
        },
        InputView::FromPeer { from, msg } => {
            let offer = msg->ClipOffer_0;
            dropping_offers_tells(s, Some(offer.seq), t);
            let a = s.forget_local();
            let b = a.followed_by(a.after.forget_remote(Some(offer.seq)));
            if step.out.len() != 0 || step.after != s {
                let news = step.out.skip(b.out.len() as int);
                assert(step.out =~= b.out + news);
                nobody_is_told(news, t);
                told_one_after_the_other(b.out, news, t);
            }
        },
        _ => {
        },
    }
}

proof fn a_new_place(s: ExchangeView, key: KeyView, who: Waiter, t: u64)
    ensures
        places(s.wait(key, who).waiting, t) == places(s.waiting, t) + if who == Waiter::Ticket(t) {
            1nat
        } else {
            0nat
        },
{
    assert(s.wait(key, who).waiting.drop_last() =~= s.waiting);
}

proof fn a_chunk_tells(
    s: ExchangeView,
    from: DeviceId,
    key: KeyView,
    offset: u64,
    data: Seq<u8>,
    last: bool,
    t: u64,
)
    ensures
        accounted(s, s.chunk_arrived(from, key, offset, data, last), t),
{
    let step = s.chunk_arrived(from, key, offset, data, last);
    if let Some(fetch) = value_of(s.fetching, key) {
        let buf = fetch.buf + data;
        let cut = ExchangeView { fetching: crate::table::erased(s.fetching, key), ..s };
        let cancel = OutputView::Send {
            to: from,
            msg: BulkView::ClipCancel { seq: key.seq, format: key.format },
        };
        let large = ClipError::TooLarge { bytes: buf.len() as u64, limit: s.max_bytes };
        one_is_told(cancel, t);
        failing_tells(cut, key, ClipError::Cancelled, t);
        failing_tells(cut, key, large, t);
        told_one_after_the_other(seq![cancel], cut.fail(key, ClipError::Cancelled).out, t);
        told_one_after_the_other(seq![cancel], cut.fail(key, large).out, t);
        serving_tells(cut, key, buf, t);
        if step.out.len() == 1 {
            assert(step.out =~= seq![step.out[0]]);
            one_is_told(step.out[0], t);
        }
    }
}

/// Whatever happens, as often as a paste began or was waiting, so often it has
/// been answered or is waiting still.
pub proof fn every_paste_is_accounted_for(s: ExchangeView, input: InputView, now: u64, t: u64)
    ensures
        ({
            let step = s.step(input, now);
            told(step.out, t) + places(step.after.waiting, t) == places(s.waiting, t)
                + if begins_paste(input, t) {
                1nat
            } else {
                0nat
            }
        }),
{
    let step = s.step(input, now);
    match input {
        InputView::PeerUp(peer) => {
            nobody_is_told(step.out, t);
        },
        InputView::PeerGone(peer) => {
            a_departure_tells(s, peer, t);
        },
        InputView::LocalChanged(formats) => {
            a_new_copy_tells(s, input, now, t);
        },
        InputView::FromPeer { from, msg } => {
            match msg {
                BulkView::ClipOffer(offer) => {
                    a_new_copy_tells(s, input, now, t);
                },
                BulkView::ClipRequest { seq, format, offset } => {
                    let key = KeyView { seq, format };
                    a_new_place(s, key, Waiter::Relay { to: from, offset }, t);
                    nobody_is_told(step.out, t);
                },
                BulkView::ClipChunk { seq, format, offset, data, last } => {
                    a_chunk_tells(s, from, KeyView { seq, format }, offset, data, last, t);
                },
                BulkView::ClipUnavailable { seq, format, reason } => {
                    let key = KeyView { seq, format };
                    let cut = ExchangeView {
                        fetching: crate::table::erased(s.fetching, key),
                        ..s
                    };
                    failing_tells(cut, key, reason, t);
                    nobody_is_told(seq![], t);
                },
                _ => {
                    nobody_is_told(seq![], t);
                },
            }
        },
        InputView::Wanted { ticket, seq, format } => {
            let key = KeyView { seq, format };
            a_new_place(s, key, Waiter::Ticket(ticket), t);
            if step.out.len() == 1 {
                assert(step.out =~= seq![step.out[0]]);
                one_is_told(step.out[0], t);
            } else {
                nobody_is_told(step.out, t);
            }
        },
        InputView::ReadDone { seq, format, result } => {
            let key = KeyView { seq, format };
            let read = ExchangeView { reading: without_item(s.reading, key), ..s };
            match result {
                Ok(data) => {
                    failing_tells(read, key, ClipError::Stale, t);
                    failing_tells(
                        read,
                        key,
                        ClipError::TooLarge { bytes: data.len() as u64, limit: s.max_bytes },
                        t,
                    );
                    serving_tells(read, key, data, t);
                },
                Err(why) => {
                    failing_tells(read, key, why, t);
                },
            }
        },
    }
}

/// A paste is answered exactly once: in the step in which it stops waiting, or
/// at once where it never waits, and in no other.
pub proof fn a_paste_is_answered_exactly_once(s: ExchangeView, input: InputView, now: u64, t: u64)
    requires
        places(s.waiting, t) <= 1,
        begins_paste(input, t) ==> !waits(s, t),
    ensures
        ({
            let step = s.step(input, now);
            let was = waits(s, t) || begins_paste(input, t);
            &&& step.out.filter(answers_paste(t)).len() == if was && !waits(step.after, t) {
                1nat
            } else {
                0nat
            }
            &&& waits(step.after, t) ==> was
            &&& places(step.after.waiting, t) <= 1
        }),
{
    let step = s.step(input, now);
    every_paste_is_accounted_for(s, input, now, t);
    told_is_how_many(step.out, t);
    waiting_is_somewhere(s.waiting, t);
    waiting_is_somewhere(step.after.waiting, t);
}

// --- over a run -----------------------------------------------------------------

/// What comes of one input after the other, each at its time.
pub open spec fn run(s: ExchangeView, inputs: Seq<(InputView, u64)>) -> Step
    decreases inputs.len(),
{
    if inputs.len() == 0 {
        s.still()
    } else {
        let before = run(s, inputs.drop_last());
        before.followed_by(before.after.step(inputs.last().0, inputs.last().1))
    }
}

/// However long it takes and whatever happens meanwhile: a paste that begins,
/// under a number that is not used again, has been answered once if it waits no
/// longer, and not yet if it does.
pub proof fn a_paste_is_answered_once_in_a_run(
    s: ExchangeView,
    wanted: InputView,
    now: u64,
    inputs: Seq<(InputView, u64)>,
    t: u64,
)
    requires
        begins_paste(wanted, t),
        !waits(s, t),
        forall|i: int| 0 <= i < inputs.len() ==> !begins_paste((#[trigger] inputs[i]).0, t),
    ensures
        ({
            let first = s.step(wanted, now);
            let all = first.followed_by(run(first.after, inputs));
            all.out.filter(answers_paste(t)).len() == if waits(all.after, t) {
                0nat
            } else {
                1nat
            }
        }),
{
    let first = s.step(wanted, now);
    let rest = run(first.after, inputs);
    waiting_is_somewhere(s.waiting, t);
    every_paste_is_accounted_for(s, wanted, now, t);
    a_run_accounts_for(first.after, inputs, t);
    told_one_after_the_other(first.out, rest.out, t);
    told_is_how_many(first.out + rest.out, t);
    waiting_is_somewhere(rest.after.waiting, t);
}

proof fn a_run_accounts_for(s: ExchangeView, inputs: Seq<(InputView, u64)>, t: u64)
    requires
        forall|i: int| 0 <= i < inputs.len() ==> !begins_paste((#[trigger] inputs[i]).0, t),
    ensures
        accounted(s, run(s, inputs), t),
    decreases inputs.len(),
{
    if inputs.len() > 0 {
        let front = inputs.drop_last();
        assert forall|i: int| 0 <= i < front.len() implies !begins_paste((#[trigger] front[i]).0, t) by {
            assert(front[i] == inputs[i]);
        }
        assert(!begins_paste(inputs[inputs.len() - 1].0, t));
        a_run_accounts_for(s, front, t);
        let before = run(s, front);
        every_paste_is_accounted_for(before.after, inputs.last().0, inputs.last().1, t);
        told_one_after_the_other(
            before.out,
            before.after.step(inputs.last().0, inputs.last().1).out,
            t,
        );
    }
}

// --- what ends the waiting --------------------------------------------------------

proof fn nothing_under_way_keeps_nobody(s: ExchangeView)
    requires
        sound(s),
        s.reading.len() == 0,
        s.fetching.len() == 0,
    ensures
        s.waiting.len() == 0,
{
    if s.waiting.len() > 0 {
        let w = s.waiting[0];
        assert(s.waiting.contains(w));
        if value_of(s.fetching, w.key) is Some {
            value_of_finds(s.fetching, w.key);
        }
    }
}

/// Whether this is the end of the copy that is held: something is copied here,
/// another copy is taken up in its place, or the machine it is held from goes.
pub open spec fn ends_the_copy(s: ExchangeView, input: InputView, now: u64) -> bool {
    let after = s.step(input, now).after;
    ||| (input is LocalChanged && after.counter != s.counter)
    ||| (input is FromPeer && input->msg is ClipOffer && after != s && s.remote is Some
        && after.remote is Some && after.remote->0.seq != s.remote->0.seq)
    ||| (input is PeerGone && s.remote is Some && s.remote->0.from == input->PeerGone_0)
}

/// Whether this is the end of waiting for a paste: the copy that is held comes to
/// its end, or the machine that the paste is fetched from goes, whichever machine
/// the copy is held from by now.
pub open spec fn ends_the_wait(s: ExchangeView, input: InputView, now: u64, t: u64) -> bool {
    ||| ends_the_copy(s, input, now)
    ||| (input is PeerGone && forall|i: int|
        0 <= i < s.waiting.len() && (#[trigger] s.waiting[i]).who == Waiter::Ticket(t) ==> {
            let fetch = value_of(s.fetching, s.waiting[i].key);
            fetch is Some && fetch->0.from == input->PeerGone_0
        })
}

/// Nobody is left hanging: once another copy has taken the place of the one
/// that is held, or the machine it is held from has gone, no paste waits.
pub proof fn nobody_waits_for_what_is_over(s: ExchangeView, input: InputView, now: u64)
    requires
        sound(s),
        ends_the_copy(s, input, now),
    ensures
        s.step(input, now).after.waiting.len() == 0,
{
    let after = s.step(input, now).after;
    soundness_is_kept(s, input, now);
    match input {
        InputView::LocalChanged(formats) => {
            dropping_offers_stays_sound(s, None);
            let b = s.forget_local().after.forget_remote(None).after;
            if after.fetching.len() > 0 {
                assert(b.fetching.contains(after.fetching[0]));
            }
        },
        InputView::FromPeer { from, msg } => {
            let offer = msg->ClipOffer_0;
            dropping_offers_stays_sound(s, Some(offer.seq));
            let b = s.forget_local().after.forget_remote(Some(offer.seq)).after;
            if after.fetching.len() > 0 {
                assert(b.fetching.contains(after.fetching[0]));
            }
        },
        InputView::PeerGone(peer) => {
            a_machine_that_leaves_is_forgotten(s, peer);
            s.departing_keeps_the_rest(peer);
            assert(after.remote is None && after.local is None);
            if after.fetching.len() > 0 {
                assert(after.fetching.contains(after.fetching[0]));
            }
            if after.reading.len() > 0 {
                assert(after.reading.contains(after.reading[0]));
            }
        },
        _ => {
        },
    }
    nothing_under_way_keeps_nobody(after);
}

proof fn a_run_stays_sound(s: ExchangeView, inputs: Seq<(InputView, u64)>)
    requires
        sound(s),
    ensures
        sound(run(s, inputs).after),
    decreases inputs.len(),
{
    if inputs.len() > 0 {
        a_run_stays_sound(s, inputs.drop_last());
        soundness_is_kept(
            run(s, inputs.drop_last()).after,
            inputs.last().0,
            inputs.last().1,
        );
    }
}

proof fn refused_with_the_reason(
    s: ExchangeView,
    keys: Seq<KeyView>,
    why: ClipError,
    w: WaitingView,
)
    requires
        s.waiting.contains(w),
        keys.contains(w.key),
    ensures
        s.fail_each(keys, why).out.contains(refusal(w, why)),
    decreases keys.len(),
{
    let front = keys.drop_last();
    let before = s.fail_each(front, why);
    let then = before.after.fail(keys.last(), why);
    if front.contains(w.key) {
        refused_with_the_reason(s, front, why, w);
        let i = choose|i: int| 0 <= i < before.out.len() && before.out[i] == refusal(w, why);
        assert((before.out + then.out)[i] == refusal(w, why));
    } else {
        let i = choose|i: int| 0 <= i < keys.len() && keys[i] == w.key;
        if i < front.len() {
            assert(front[i] == w.key);
        }
        assert(keys.last() == w.key);
        failing_leaves_the_others(s, front, why);
        assert(before.after.waiting.contains(w));
        let ready = before.after.waiting.filter(waits_for(w.key));
        filter_members(before.after.waiting, waits_for(w.key));
        assert(ready.contains(w));
        let j = choose|j: int| 0 <= j < ready.len() && ready[j] == w;
        assert(then.out[j] == refusal(w, why));
        assert((before.out + then.out)[before.out.len() + j] == refusal(w, why));
    }
}

/// A machine that vanishes while its contents are being fetched fails the
/// pastes that wait for them, as cancelled; and where the clipboard here was
/// held from it, that is given back.
pub proof fn a_vanished_machine_fails_the_paste(
    s: ExchangeView,
    peer: DeviceId,
    now: u64,
    w: WaitingView,
    t: u64,
)
    requires
        sound(s),
        s.waiting.contains(w),
        w.who == Waiter::Ticket(t),
        places(s.waiting, t) <= 1,
        value_of(s.fetching, w.key) is Some,
        value_of(s.fetching, w.key)->0.from == peer,
    ensures
        ({
            let out = s.step(InputView::PeerGone(peer), now).out;
            &&& !waits(s.step(InputView::PeerGone(peer), now).after, t)
            &&& out.filter(answers_paste(t)).len() == 1
            &&& out.contains(OutputView::Deliver { ticket: t, result: Err(ClipError::Cancelled) })
            &&& s.remote is Some && s.remote->0.from == peer ==> out.last()
                == OutputView::ReleaseLocally
        }),
{
    let lost = |e: (KeyView, FetchingView)| e.1.from == peer;
    let key_of = |e: (KeyView, FetchingView)| e.0;
    let cut = ExchangeView {
        peers: without_item(s.peers, peer),
        fetching: s.fetching.filter(|e: (KeyView, FetchingView)| e.1.from != peer),
        ..s
    };
    let keys = s.fetched_from(peer);
    let fetch = value_of(s.fetching, w.key)->0;
    value_of_finds(s.fetching, w.key);
    assert(s.fetching.contains((w.key, fetch)));
    filter_members(s.fetching, lost);
    let over = s.fetching.filter(lost);
    assert(over.contains((w.key, fetch)));
    let i = choose|i: int| 0 <= i < over.len() && over[i] == (w.key, fetch);
    assert(keys[i] == w.key);
    refused_with_the_reason(cut, keys, ClipError::Cancelled, w);
    let failed = cut.fail_each(keys, ClipError::Cancelled);
    let k = choose|k: int|
        0 <= k < failed.out.len() && failed.out[k] == refusal(w, ClipError::Cancelled);
    cut.failing_keeps_the_rest(keys, ClipError::Cancelled);
    let out = s.step(InputView::PeerGone(peer), now).out;
    assert(out[k] == refusal(w, ClipError::Cancelled));
    filter_members(out, answers_paste(t));
    assert(out.contains(out[k]));
    assert(out.filter(answers_paste(t)).contains(out[k]));
    a_paste_is_answered_exactly_once(s, InputView::PeerGone(peer), now, t);
}

/// A paste is never left hanging and never answered twice: from when it begins,
/// under a number that is not used again, until the copy that is held by then
/// comes to its end or the machine it is fetched from goes, it has been answered
/// exactly once, whatever happened in between.
pub proof fn a_paste_is_settled_by_the_end_of_the_copy(
    s: ExchangeView,
    wanted: InputView,
    now: u64,
    inputs: Seq<(InputView, u64)>,
    t: u64,
)
    requires
        sound(s),
        begins_paste(wanted, t),
        !waits(s, t),
        inputs.len() > 0,
        forall|i: int| 0 <= i < inputs.len() ==> !begins_paste((#[trigger] inputs[i]).0, t),
        ends_the_wait(
            run(s.step(wanted, now).after, inputs.drop_last()).after,
            inputs.last().0,
            inputs.last().1,
            t,
        ),
    ensures
        ({
            let first = s.step(wanted, now);
            let all = first.followed_by(run(first.after, inputs));
            all.out.filter(answers_paste(t)).len() == 1
        }),
{
    let first = s.step(wanted, now);
    let before = run(first.after, inputs.drop_last());
    soundness_is_kept(s, wanted, now);
    a_run_stays_sound(first.after, inputs.drop_last());
    let (input, then) = inputs.last();
    if ends_the_copy(before.after, input, then) {
        nobody_waits_for_what_is_over(before.after, input, then);
    } else {
        let front = inputs.drop_last();
        assert forall|i: int| 0 <= i < front.len() implies !begins_paste((#[trigger] front[i]).0, t) by {
            assert(front[i] == inputs[i]);
        }
        assert(!begins_paste(inputs[inputs.len() - 1].0, t));
        waiting_is_somewhere(s.waiting, t);
        every_paste_is_accounted_for(s, wanted, now, t);
        a_run_accounts_for(first.after, front, t);
        if waits(before.after, t) {
            let i = choose|i: int|
                0 <= i < before.after.waiting.len() && (#[trigger] before.after.waiting[i]).who
                    == Waiter::Ticket(t);
            let w = before.after.waiting[i];
            assert(before.after.waiting.contains(w));
            a_vanished_machine_fails_the_paste(before.after, input->PeerGone_0, then, w, t);
        } else {
            a_paste_is_answered_exactly_once(before.after, input, then, t);
        }
    }
    a_paste_is_answered_once_in_a_run(s, wanted, now, inputs, t);
}

} // verus!
