//! What always holds of the clipboard exchange.

use vstd::prelude::*;

use crate::exchange::{
    answer, chunk_at, waits_for, waits_for_other, ExchangeView, FetchingView, InputView, OutputView,
    Step, Waiter, WaitingView,
};
use crate::layout::DeviceId;
use crate::proto::{
    BulkView, ClipError, ClipFormat, ClipSeq, FormatView, KeyView, MAX_CHUNK_DATA,
};
use crate::table::{
    erased, filter_members, filtered_reads_back, filtering_stays_keyed, in_order_lists_each_once,
    keyed, stored, stored_reads_back, stored_stays_keyed, value_of, value_of_finds, without_item,
};

verus! {

// --- what is pasted is what was copied --------------------------------------

/// The rest of a fetch, `have` bytes in: the machine that has the contents
/// answers each request in turn, until the last chunk.
pub open spec fn conversation(
    b: ExchangeView,
    from: DeviceId,
    key: KeyView,
    data: Seq<u8>,
    have: nat,
    now: u64,
) -> Step
    decreases data.len() - have,
{
    let step = b.peer_said(from, chunk_at(key, data, have as u64), now);
    if have + MAX_CHUNK_DATA >= data.len() {
        step
    } else {
        conversation(step.after, from, key, data, have + MAX_CHUNK_DATA as nat, now)
    }
}

/// A machine that has the contents answers every request with the chunk that
/// begins where it was asked to.
pub proof fn contents_at_hand_are_served(
    a: ExchangeView,
    to: DeviceId,
    key: KeyView,
    data: Seq<u8>,
    offset: u64,
    now: u64,
)
    requires
        value_of(a.cache, key) == Some(data),
    ensures
        a.step(
            InputView::FromPeer {
                from: to,
                msg: BulkView::ClipRequest { seq: key.seq, format: key.format, offset },
            },
            now,
        ) == (Step {
            after: a,
            out: seq![OutputView::Send { to, msg: chunk_at(key, data, offset) }],
        }),
{
    assert(key == KeyView { seq: key.seq, format: key.format });
}

/// Contents fetched a chunk at a time arrive exactly as they were: everyone
/// waiting is answered with all of them, in order, and they are kept.
pub proof fn a_fetch_brings_back_the_contents(
    b: ExchangeView,
    from: DeviceId,
    key: KeyView,
    data: Seq<u8>,
    have: nat,
    now: u64,
)
    requires
        keyed(b.fetching),
        have <= data.len(),
        value_of(b.fetching, key) == Some(FetchingView { from, buf: data.take(have as int) }),
        data.len() <= b.max_bytes,
    ensures
        ({
            let done = conversation(b, from, key, data, have, now);
            &&& done.out == b.waiting.filter(waits_for(key)).map_values(
                |w: WaitingView| answer(w, data),
            )
            &&& done.after.waiting == b.waiting.filter(waits_for_other(key))
            &&& value_of(done.after.cache, key) == Some(data)
            &&& value_of(done.after.fetching, key) is None
        }),
    decreases data.len() - have,
{
    let step = b.peer_said(from, chunk_at(key, data, have as u64), now);
    assert(key == KeyView { seq: key.seq, format: key.format });
    if have + MAX_CHUNK_DATA >= data.len() {
        let piece = data.subrange(have as int, data.len() as int);
        assert(data.take(have as int) + piece =~= data);
        stored_reads_back(b.cache, key, data, key);
        filtered_reads_back(
            b.fetching,
            |e: (KeyView, FetchingView)| e.0 != key,
            key,
        );
        erased_is_filtered(b.fetching, key);
    } else {
        let next = have + MAX_CHUNK_DATA as nat;
        let piece = data.subrange(have as int, next as int);
        assert(data.take(have as int) + piece =~= data.take(next as int));
        let fetch = FetchingView { from, buf: data.take(next as int) };
        stored_reads_back(b.fetching, key, fetch, key);
        stored_stays_keyed(b.fetching, key, fetch);
        assert(step.after == ExchangeView { fetching: stored(b.fetching, key, fetch), ..b });
        a_fetch_brings_back_the_contents(step.after, from, key, data, next, now);
    }
}

proof fn erased_is_filtered<V>(s: Seq<(KeyView, V)>, key: KeyView)
    ensures
        erased(s, key) == s.filter(|e: (KeyView, V)| e.0 != key),
{
    let f = |e: (KeyView, V)| e.0 != key;
    assert(erased(s, key) == s.filter(f)) by {
        crate::table::erased_filters(s, key, f);
    }
}

// --- nobody waits for nothing -----------------------------------------------

/// Everyone waiting waits for something that is being read or fetched.
pub open spec fn answerable(s: ExchangeView) -> bool {
    forall|w: WaitingView| #[trigger]
        s.waiting.contains(w) ==> s.reading.contains(w.key) || value_of(s.fetching, w.key) is Some
}

/// Only the current offers leave traces: what is read is offered here, what is
/// fetched is held from elsewhere, and what is kept is one or the other.
pub open spec fn tidy(s: ExchangeView) -> bool {
    &&& !(s.local is Some && s.remote is Some)
    &&& forall|k: KeyView| #[trigger]
        s.reading.contains(k) ==> s.local is Some && s.local->0.seq == k.seq
    &&& forall|e: (KeyView, FetchingView)| #[trigger]
        s.fetching.contains(e) ==> s.remote is Some && s.remote->0.seq == e.0.seq
    &&& forall|e: (KeyView, Seq<u8>)| #[trigger]
        s.cache.contains(e) ==> (s.local is Some && s.local->0.seq == e.0.seq) || (s.remote is Some
            && s.remote->0.seq == e.0.seq)
    &&& keyed(s.fetching)
    &&& keyed(s.cache)
}

/// Both together: the state the exchange is always in.
pub open spec fn sound(s: ExchangeView) -> bool {
    answerable(s) && tidy(s)
}

pub proof fn failing_leaves_the_others(s: ExchangeView, keys: Seq<KeyView>, why: ClipError)
    ensures
        forall|w: WaitingView| #[trigger]
            s.fail_each(keys, why).after.waiting.contains(w) <==> s.waiting.contains(w)
                && !keys.contains(w.key),
    decreases keys.len(),
{
    if keys.len() > 0 {
        let front = keys.drop_last();
        failing_leaves_the_others(s, front, why);
        let before = s.fail_each(front, why).after;
        filter_members(before.waiting, waits_for_other(keys.last()));
        assert forall|k: KeyView| keys.contains(k) <==> front.contains(k) || k == keys.last() by {
            if keys.contains(k) {
                let i = choose|i: int| 0 <= i < keys.len() && keys[i] == k;
                if i < front.len() {
                    assert(front[i] == k);
                }
            }
            if front.contains(k) {
                let i = choose|i: int| 0 <= i < front.len() && front[i] == k;
                assert(keys[i] == k);
            }
            if k == keys.last() {
                assert(keys[keys.len() - 1] == k);
            }
        }
    }
}

/// A copy that is over leaves nothing behind: nothing of it is kept, read,
/// fetched or waited for, and everything else stays.
pub proof fn forgetting_leaves_no_trace(s: ExchangeView, seq: ClipSeq)
    requires
        keyed(s.fetching),
        keyed(s.cache),
    ensures
        ({
            let r = s.forget(seq).after;
            &&& forall|w: WaitingView| #[trigger]
                r.waiting.contains(w) <==> s.waiting.contains(w) && w.key.seq != seq
            &&& forall|k: KeyView| #[trigger]
                r.reading.contains(k) <==> s.reading.contains(k) && k.seq != seq
            &&& forall|e: (KeyView, FetchingView)| #[trigger]
                r.fetching.contains(e) <==> s.fetching.contains(e) && e.0.seq != seq
            &&& forall|k: KeyView|
                (#[trigger] value_of(r.fetching, k)) == if k.seq != seq {
                    value_of(s.fetching, k)
                } else {
                    None
                }
            &&& forall|e: (KeyView, Seq<u8>)| #[trigger]
                r.cache.contains(e) <==> s.cache.contains(e) && e.0.seq != seq
            &&& keyed(r.fetching)
            &&& keyed(r.cache)
            &&& r == (ExchangeView {
                cache: r.cache,
                reading: r.reading,
                fetching: r.fetching,
                waiting: r.waiting,
                ..s
            })
        }),
{
    let kept = |e: (KeyView, Seq<u8>)| e.0.seq != seq;
    let going = |e: (KeyView, FetchingView)| e.0.seq != seq;
    let unread = |k: KeyView| k.seq != seq;
    let cleared = ExchangeView {
        cache: s.cache.filter(kept),
        reading: s.reading.filter(unread),
        fetching: s.fetching.filter(going),
        ..s
    };
    let named = |f: FormatView| KeyView { seq, format: f };
    let keys = s.wanted_formats(seq).map_values(named);
    let of_seq = |w: WaitingView| w.key.seq == seq;
    let its_format = |w: WaitingView| w.key.format;
    let asked = s.waiting.filter(of_seq);
    let r = s.forget(seq).after;
    s.forget_keeps_the_rest(seq);
    cleared.failing_keeps_the_rest(keys, ClipError::Stale);
    failing_leaves_the_others(cleared, keys, ClipError::Stale);
    filtering_stays_keyed(s.cache, kept);
    filtering_stays_keyed(s.fetching, going);
    filter_members(s.reading, unread);
    filter_members(s.waiting, of_seq);
    in_order_lists_each_once::<ClipFormat>(asked.map_values(its_format));
    assert(r.cache == cleared.cache && r.fetching == cleared.fetching && r.reading
        == cleared.reading);
    assert forall|w: WaitingView| #[trigger]
        r.waiting.contains(w) <==> s.waiting.contains(w) && w.key.seq != seq by {
        if s.waiting.contains(w) && w.key.seq == seq {
            assert(asked.contains(w));
            let i = choose|i: int| 0 <= i < asked.len() && asked[i] == w;
            assert(asked.map_values(its_format)[i] == w.key.format);
            assert(asked.map_values(its_format).contains(w.key.format));
            assert(s.wanted_formats(seq).contains(w.key.format));
            let j = choose|j: int|
                0 <= j < s.wanted_formats(seq).len() && s.wanted_formats(seq)[j] == w.key.format;
            assert(keys[j] == w.key);
            assert(keys.contains(w.key));
        }
        if keys.contains(w.key) {
            let j = choose|j: int| 0 <= j < keys.len() && keys[j] == w.key;
            assert(keys[j].seq == seq);
        }
    }
    assert forall|k: KeyView|
        (#[trigger] value_of(r.fetching, k)) == if k.seq != seq {
            value_of(s.fetching, k)
        } else {
            None
        } by {
        filtered_reads_back(s.fetching, going, k);
    }
}

/// The exchange begins sound.
pub proof fn a_new_exchange_is_sound(s: ExchangeView)
    requires
        s.local is None,
        s.remote is None,
        s.cache.len() == 0,
        s.reading.len() == 0,
        s.fetching.len() == 0,
        s.waiting.len() == 0,
    ensures
        sound(s),
{
}

proof fn failing_stays_sound(s: ExchangeView, key: KeyView, why: ClipError)
    requires
        tidy(s),
        forall|w: WaitingView| #[trigger]
            s.waiting.contains(w) && w.key != key ==> s.reading.contains(w.key) || value_of(
                s.fetching,
                w.key,
            ) is Some,
    ensures
        sound(s.fail(key, why).after),
{
    filter_members(s.waiting, waits_for_other(key));
}

proof fn serving_stays_sound(s: ExchangeView, key: KeyView, data: Seq<u8>)
    requires
        tidy(s),
        (s.local is Some && s.local->0.seq == key.seq) || (s.remote is Some && s.remote->0.seq
            == key.seq),
        forall|w: WaitingView| #[trigger]
            s.waiting.contains(w) && w.key != key ==> s.reading.contains(w.key) || value_of(
                s.fetching,
                w.key,
            ) is Some,
    ensures
        sound(s.serve(key, data).after),
{
    filter_members(s.waiting, waits_for_other(key));
    let r = s.serve(key, data).after;
    stored_stays_keyed(s.cache, key, data);
    assert forall|e: (KeyView, Seq<u8>)| #[trigger] r.cache.contains(e) implies (r.local is Some
        && r.local->0.seq == e.0.seq) || (r.remote is Some && r.remote->0.seq == e.0.seq) by {
        let i = choose|i: int| 0 <= i < r.cache.len() && r.cache[i] == e;
        assert(r.cache[i] == (key, data) || s.cache.contains(r.cache[i]));
    }
}

/// Ending a fetch leaves the other fetches as they are.
proof fn ending_a_fetch(s: ExchangeView, key: KeyView)
    requires
        sound(s),
    ensures
        ({
            let r = ExchangeView { fetching: erased(s.fetching, key), ..s };
            &&& tidy(r)
            &&& forall|w: WaitingView| #[trigger]
                r.waiting.contains(w) && w.key != key ==> r.reading.contains(w.key) || value_of(
                    r.fetching,
                    w.key,
                ) is Some
        }),
{
    let other = |e: (KeyView, FetchingView)| e.0 != key;
    erased_is_filtered(s.fetching, key);
    filtering_stays_keyed(s.fetching, other);
    assert forall|k: KeyView| k != key implies (#[trigger] value_of(
        erased(s.fetching, key),
        k,
    )) == value_of(s.fetching, k) by {
        filtered_reads_back(s.fetching, other, k);
    }
}

proof fn fetching_stays_sound(s: ExchangeView, key: KeyView, fetch: FetchingView)
    requires
        tidy(s),
        s.remote is Some && s.remote->0.seq == key.seq,
        forall|w: WaitingView| #[trigger]
            s.waiting.contains(w) && w.key != key ==> s.reading.contains(w.key) || value_of(
                s.fetching,
                w.key,
            ) is Some,
    ensures
        sound(ExchangeView { fetching: stored(s.fetching, key, fetch), ..s }),
{
    let r = ExchangeView { fetching: stored(s.fetching, key, fetch), ..s };
    stored_stays_keyed(s.fetching, key, fetch);
    assert forall|w: WaitingView| #[trigger] r.waiting.contains(w) implies r.reading.contains(w.key)
        || value_of(r.fetching, w.key) is Some by {
        stored_reads_back(s.fetching, key, fetch, w.key);
    }
    assert forall|e: (KeyView, FetchingView)| #[trigger] r.fetching.contains(e) implies r.remote
        is Some && r.remote->0.seq == e.0.seq by {
        let i = choose|i: int| 0 <= i < r.fetching.len() && r.fetching[i] == e;
        assert(r.fetching[i] == (key, fetch) || s.fetching.contains(r.fetching[i]));
    }
}

proof fn waiting_members(s: ExchangeView, key: KeyView, who: Waiter)
    ensures
        forall|w: WaitingView| #[trigger]
            s.wait(key, who).waiting.contains(w) <==> s.waiting.contains(w) || w == (WaitingView {
                key,
                who,
            }),
{
    let r = s.wait(key, who).waiting;
    let last = WaitingView { key, who };
    assert forall|w: WaitingView| #[trigger] r.contains(w) <==> s.waiting.contains(w) || w
        == last by {
        if r.contains(w) {
            let i = choose|i: int| 0 <= i < r.len() && r[i] == w;
            if i < s.waiting.len() {
                assert(s.waiting[i] == w);
            }
        }
        if s.waiting.contains(w) {
            let i = choose|i: int| 0 <= i < s.waiting.len() && s.waiting[i] == w;
            assert(r[i] == w);
        }
        if w == last {
            assert(r[r.len() - 1] == w);
        }
    }
}

/// With the copy it belongs to gone, so are its traces.
pub proof fn dropping_offers_stays_sound(s: ExchangeView, except: Option<ClipSeq>)
    requires
        sound(s),
    ensures
        ({
            let a = s.forget_local().after;
            let b = a.forget_remote(except).after;
            &&& sound(a)
            &&& a.local is None
            &&& a.remote == s.remote
            &&& b.local is None
            &&& b.remote is None
            &&& keyed(b.fetching)
            &&& keyed(b.cache)
            &&& answerable(b)
            &&& b.reading.len() == 0
            &&& forall|e: (KeyView, FetchingView)| #[trigger]
                b.fetching.contains(e) ==> s.remote is Some && s.remote->0.seq == e.0.seq && except
                    == Some(e.0.seq)
            &&& forall|e: (KeyView, Seq<u8>)| #[trigger]
                b.cache.contains(e) ==> s.remote is Some && s.remote->0.seq == e.0.seq && except
                    == Some(e.0.seq)
        }),
{
    let a = s.forget_local().after;
    if let Some(own) = s.local {
        let bare = ExchangeView { local: None, ..s };
        forgetting_leaves_no_trace(bare, own.seq);
        assert forall|w: WaitingView| #[trigger] a.waiting.contains(w) implies a.reading.contains(
            w.key,
        ) || value_of(a.fetching, w.key) is Some by {
            assert(s.waiting.contains(w));
        }
    }
    assert(sound(a));
    let b = a.forget_remote(except).after;
    if let Some(held) = a.remote {
        let bare = ExchangeView { remote: None, ..a };
        forgetting_leaves_no_trace(bare, held.seq);
        assert forall|w: WaitingView| #[trigger] b.waiting.contains(w) implies b.reading.contains(
            w.key,
        ) || value_of(b.fetching, w.key) is Some by {
            assert(a.waiting.contains(w));
        }
    }
    if b.reading.len() > 0 {
        assert(b.reading.contains(b.reading[0]));
        assert(a.reading.contains(b.reading[0]));
    }
}

proof fn a_request_stays_sound(s: ExchangeView, from: DeviceId, key: KeyView, offset: u64)
    requires
        sound(s),
    ensures
        sound(s.requested(from, key, offset).after),
{
    let who = Waiter::Relay { to: from, offset };
    let w1 = s.wait(key, who);
    waiting_members(s, key, who);
    if value_of(s.cache, key) is None {
        if s.offers(key) {
            let r = s.requested(from, key, offset).after;
            assert forall|k: KeyView| #[trigger] r.reading.contains(k) <==> s.reading.contains(k)
                || k == key by {
                if !s.reading.contains(key) {
                    assert(r.reading == s.reading.push(key));
                    if r.reading.contains(k) {
                        let i = choose|i: int| 0 <= i < r.reading.len() && r.reading[i] == k;
                        if i < s.reading.len() {
                            assert(s.reading[i] == k);
                        }
                    }
                    if s.reading.contains(k) {
                        let i = choose|i: int| 0 <= i < s.reading.len() && s.reading[i] == k;
                        assert(r.reading[i] == k);
                    }
                    if k == key {
                        assert(r.reading[r.reading.len() - 1] == k);
                    }
                }
            }
        } else if s.holds(key) && s.remote->0.from != from {
            if value_of(s.fetching, key) is None {
                fetching_stays_sound(
                    w1,
                    key,
                    FetchingView { from: s.remote->0.from, buf: Seq::empty() },
                );
            }
        }
    }
}

proof fn a_paste_stays_sound(s: ExchangeView, ticket: u64, key: KeyView)
    requires
        sound(s),
    ensures
        sound(s.wanted(ticket, key).after),
{
    let who = Waiter::Ticket(ticket);
    let w1 = s.wait(key, who);
    waiting_members(s, key, who);
    if value_of(s.cache, key) is None && s.holds(key) {
        if value_of(s.fetching, key) is None {
            fetching_stays_sound(
                w1,
                key,
                FetchingView { from: s.remote->0.from, buf: Seq::empty() },
            );
        }
    }
}

proof fn a_chunk_stays_sound(
    s: ExchangeView,
    from: DeviceId,
    key: KeyView,
    offset: u64,
    data: Seq<u8>,
    last: bool,
)
    requires
        sound(s),
    ensures
        sound(s.chunk_arrived(from, key, offset, data, last).after),
{
    if let Some(fetch) = value_of(s.fetching, key) {
        value_of_finds(s.fetching, key);
        assert(s.fetching.contains((key, fetch)));
        ending_a_fetch(s, key);
        let cut = ExchangeView { fetching: erased(s.fetching, key), ..s };
        let buf = fetch.buf + data;
        failing_stays_sound(cut, key, ClipError::Cancelled);
        failing_stays_sound(
            cut,
            key,
            ClipError::TooLarge { bytes: buf.len() as u64, limit: s.max_bytes },
        );
        serving_stays_sound(cut, key, buf);
        fetching_stays_sound(s, key, FetchingView { from, buf });
    }
}

proof fn a_reading_stays_sound(
    s: ExchangeView,
    key: KeyView,
    result: Result<Seq<u8>, ClipError>,
)
    requires
        sound(s),
    ensures
        sound(s.read_done(key, result).after),
{
    let read = ExchangeView { reading: without_item(s.reading, key), ..s };
    crate::table::without_item_filters(s.reading, key, |k: KeyView| k != key);
    filter_members(s.reading, |k: KeyView| k != key);
    match result {
        Ok(data) => {
            failing_stays_sound(read, key, ClipError::Stale);
            failing_stays_sound(
                read,
                key,
                ClipError::TooLarge { bytes: data.len() as u64, limit: s.max_bytes },
            );
            if s.local is Some && s.local->0.seq == key.seq {
                serving_stays_sound(read, key, data);
            }
        },
        Err(why) => {
            failing_stays_sound(read, key, why);
        },
    }
}

/// A machine that leaves is forgotten altogether: it is no peer, nothing is
/// fetched from it, nothing waits to be passed to it, and nothing is held from
/// it. Everyone else still waits only for what will come.
pub proof fn a_machine_that_leaves_is_forgotten(s: ExchangeView, peer: DeviceId)
    requires
        sound(s),
    ensures
        ({
            let r = s.peer_gone(peer).after;
            &&& sound(r)
            &&& !r.peers.contains(peer)
            &&& forall|e: (KeyView, FetchingView)| #[trigger]
                r.fetching.contains(e) ==> e.1.from != peer
            &&& forall|w: WaitingView| #[trigger]
                r.waiting.contains(w) ==> !(w.who is Relay && w.who->to == peer)
            &&& r.remote is Some ==> r.remote->0.from != peer
        }),
{
    let keep = |e: (KeyView, FetchingView)| e.1.from != peer;
    let lost = |e: (KeyView, FetchingView)| e.1.from == peer;
    let key_of = |e: (KeyView, FetchingView)| e.0;
    let staying = |w: WaitingView| !(w.who is Relay && w.who->to == peer);
    let cut = ExchangeView {
        peers: without_item(s.peers, peer),
        fetching: s.fetching.filter(keep),
        ..s
    };
    let keys = s.fetched_from(peer);
    crate::table::without_item_filters(s.peers, peer, |p: DeviceId| p != peer);
    filter_members(s.peers, |p: DeviceId| p != peer);
    filtering_stays_keyed(s.fetching, keep);
    filter_members(s.fetching, lost);
    cut.failing_keeps_the_rest(keys, ClipError::Cancelled);
    failing_leaves_the_others(cut, keys, ClipError::Cancelled);
    let failed = cut.fail_each(keys, ClipError::Cancelled).after;
    filter_members(failed.waiting, staying);
    let left = ExchangeView { waiting: failed.waiting.filter(staying), ..failed };
    assert forall|w: WaitingView| #[trigger] left.waiting.contains(w) implies left.reading.contains(
        w.key,
    ) || value_of(left.fetching, w.key) is Some by {
        assert(failed.waiting.contains(w));
        assert(s.waiting.contains(w));
        filtered_reads_back(s.fetching, keep, w.key);
        if let Some(fetch) = value_of(s.fetching, w.key) {
            if !keep((w.key, fetch)) {
                value_of_finds(s.fetching, w.key);
                assert(s.fetching.contains((w.key, fetch)));
                assert(s.fetching.filter(lost).contains((w.key, fetch)));
                let i = choose|i: int|
                    0 <= i < s.fetching.filter(lost).len() && s.fetching.filter(lost)[i] == (
                        w.key,
                        fetch,
                    );
                assert(keys[i] == w.key);
                assert(keys.contains(w.key));
            }
        }
    }
    assert(sound(left));
    if left.remote is Some && left.remote->0.from == peer {
        dropping_offers_stays_sound(left, None);
        assert(left.local is None);
        let r = left.forget_remote(None).after;
        let bare = ExchangeView { remote: None, ..left };
        forgetting_leaves_no_trace(bare, left.remote->0.seq);
    }
}

/// Whatever happens, everyone waiting waits for something under way, and only
/// the current offers leave traces.
pub proof fn soundness_is_kept(s: ExchangeView, input: InputView, now: u64)
    requires
        sound(s),
    ensures
        sound(s.step(input, now).after),
{
    match input {
        InputView::PeerUp(peer) => {
        },
        InputView::PeerGone(peer) => {
            a_machine_that_leaves_is_forgotten(s, peer);
        },
        InputView::LocalChanged(formats) => {
            dropping_offers_stays_sound(s, None);
        },
        InputView::FromPeer { from, msg } => {
            match msg {
                BulkView::ClipOffer(offer) => {
                    dropping_offers_stays_sound(s, Some(offer.seq));
                },
                BulkView::ClipRequest { seq, format, offset } => {
                    a_request_stays_sound(s, from, KeyView { seq, format }, offset);
                },
                BulkView::ClipChunk { seq, format, offset, data, last } => {
                    a_chunk_stays_sound(s, from, KeyView { seq, format }, offset, data, last);
                },
                BulkView::ClipUnavailable { seq, format, reason } => {
                    let key = KeyView { seq, format };
                    ending_a_fetch(s, key);
                    failing_stays_sound(
                        ExchangeView { fetching: erased(s.fetching, key), ..s },
                        key,
                        reason,
                    );
                },
                _ => {
                },
            }
        },
        InputView::Wanted { ticket, seq, format } => {
            a_paste_stays_sound(s, ticket, KeyView { seq, format });
        },
        InputView::ReadDone { seq, format, result } => {
            a_reading_stays_sound(s, KeyView { seq, format }, result);
        },
    }
}

// --- limits -------------------------------------------------------------

/// Nothing over the limit is ever kept: whatever is newly kept is within it.
pub proof fn nothing_over_the_limit_is_kept(s: ExchangeView, input: InputView, now: u64)
    requires
        sound(s),
    ensures
        forall|e: (KeyView, Seq<u8>)| #[trigger]
            s.step(input, now).after.cache.contains(e) ==> s.cache.contains(e) || e.1.len()
                <= s.max_bytes,
{
    match input {
        InputView::PeerUp(peer) => {
        },
        InputView::PeerGone(peer) => {
            keeping_less_after_a_machine_left(s, peer);
        },
        InputView::LocalChanged(formats) => {
            dropping_offers_stays_sound(s, None);
        },
        InputView::FromPeer { from, msg } => {
            match msg {
                BulkView::ClipOffer(offer) => {
                    dropping_offers_keeps_less(s, Some(offer.seq));
                },
                BulkView::ClipChunk { seq, format, offset, data, last } => {
                    let key = KeyView { seq, format };
                    if let Some(fetch) = value_of(s.fetching, key) {
                        kept_members(s, key, fetch.buf + data);
                    }
                },
                _ => {
                },
            }
        },
        InputView::Wanted { ticket, seq, format } => {
        },
        InputView::ReadDone { seq, format, result } => {
            if let Ok(data) = result {
                kept_members(s, KeyView { seq, format }, data);
            }
        },
    }
}

proof fn kept_members(s: ExchangeView, key: KeyView, data: Seq<u8>)
    requires
        keyed(s.cache),
    ensures
        forall|e: (KeyView, Seq<u8>)| #[trigger]
            stored(s.cache, key, data).contains(e) ==> s.cache.contains(e) || e == (key, data),
{
    stored_stays_keyed(s.cache, key, data);
    assert forall|e: (KeyView, Seq<u8>)| #[trigger]
        stored(s.cache, key, data).contains(e) implies s.cache.contains(e) || e == (
        key,
        data,
    ) by {
        let r = stored(s.cache, key, data);
        let i = choose|i: int| 0 <= i < r.len() && r[i] == e;
        assert(r[i] == (key, data) || s.cache.contains(r[i]));
    }
}

proof fn dropping_offers_keeps_less(s: ExchangeView, except: Option<ClipSeq>)
    requires
        sound(s),
    ensures
        forall|e: (KeyView, Seq<u8>)| #[trigger]
            s.forget_local().after.forget_remote(except).after.cache.contains(e)
                ==> s.cache.contains(e),
{
    dropping_offers_stays_sound(s, except);
    let a = s.forget_local().after;
    if let Some(own) = s.local {
        forgetting_leaves_no_trace(ExchangeView { local: None, ..s }, own.seq);
    }
    if let Some(held) = a.remote {
        forgetting_leaves_no_trace(ExchangeView { remote: None, ..a }, held.seq);
    }
}

proof fn keeping_less_after_a_machine_left(s: ExchangeView, peer: DeviceId)
    requires
        sound(s),
    ensures
        forall|e: (KeyView, Seq<u8>)| #[trigger]
            s.peer_gone(peer).after.cache.contains(e) ==> s.cache.contains(e),
{
    let cut = ExchangeView {
        peers: without_item(s.peers, peer),
        fetching: s.fetching.filter(|e: (KeyView, FetchingView)| e.1.from != peer),
        ..s
    };
    filtering_stays_keyed(s.fetching, |e: (KeyView, FetchingView)| e.1.from != peer);
    let keys = s.fetched_from(peer);
    cut.failing_keeps_the_rest(keys, ClipError::Cancelled);
    let failed = cut.fail_each(keys, ClipError::Cancelled).after;
    let left = ExchangeView {
        waiting: failed.waiting.filter(
            |w: WaitingView| !(w.who is Relay && w.who->to == peer),
        ),
        ..failed
    };
    if left.remote is Some && left.remote->0.from == peer {
        forgetting_leaves_no_trace(
            ExchangeView { remote: None, ..left },
            left.remote->0.seq,
        );
    }
}

// --- when nothing is carried --------------------------------------------------

/// With sharing off, neither a copy here nor one elsewhere is carried.
pub proof fn switched_off_carries_nothing(
    s: ExchangeView,
    formats: Seq<FormatView>,
    from: DeviceId,
    offer: crate::proto::OfferView,
    now: u64,
)
    requires
        !s.enabled,
    ensures
        s.step(InputView::LocalChanged(formats), now) == s.still(),
        s.step(InputView::FromPeer { from, msg: BulkView::ClipOffer(offer) }, now) == s.still(),
        s.step(InputView::PeerUp(from), now).out.len() == 0,
{
}

/// A notice with nothing in it that may be carried changes nothing.
pub proof fn an_empty_notice_changes_nothing(s: ExchangeView, formats: Seq<FormatView>, now: u64)
    requires
        forall|f: FormatView| #[trigger] formats.contains(f) ==> !s.allowed.contains(f),
    ensures
        s.step(InputView::LocalChanged(formats), now) == s.still(),
{
    let usable = formats.filter(|f: FormatView| s.allowed.contains(f));
    filter_members(formats, |f: FormatView| s.allowed.contains(f));
    if usable.len() > 0 {
        assert(usable.contains(usable[0]));
    }
}

/// A paste of a copy that is not held, and whose contents are not here, is
/// refused at once as stale.
pub proof fn a_stale_paste_is_refused_at_once(
    s: ExchangeView,
    ticket: u64,
    seq: ClipSeq,
    format: FormatView,
    now: u64,
)
    requires
        value_of(s.cache, KeyView { seq, format }) is None,
        !s.holds(KeyView { seq, format }),
    ensures
        s.step(InputView::Wanted { ticket, seq, format }, now) == (Step {
            after: s,
            out: seq![OutputView::Deliver { ticket, result: Err(ClipError::Stale) }],
        }),
{
}

// --- one chunk at a time ------------------------------------------------------

/// A request for the next chunk of something.
pub open spec fn asks_for_a_chunk(o: OutputView) -> bool {
    o is Send && o->msg is ClipRequest
}

pub open spec fn asks_for_nothing(out: Seq<OutputView>) -> bool {
    forall|i: int| 0 <= i < out.len() ==> !asks_for_a_chunk(#[trigger] out[i])
}

proof fn failing_asks_for_nothing(s: ExchangeView, keys: Seq<KeyView>, why: ClipError)
    ensures
        asks_for_nothing(s.fail_each(keys, why).out),
    decreases keys.len(),
{
    if keys.len() > 0 {
        failing_asks_for_nothing(s, keys.drop_last(), why);
    }
}

proof fn forgetting_asks_for_nothing(s: ExchangeView, seq: ClipSeq)
    ensures
        asks_for_nothing(s.forget(seq).out),
{
    let cleared = ExchangeView {
        cache: s.cache.filter(|e: (KeyView, Seq<u8>)| e.0.seq != seq),
        reading: s.reading.filter(|k: KeyView| k.seq != seq),
        fetching: s.fetching.filter(|e: (KeyView, FetchingView)| e.0.seq != seq),
        ..s
    };
    failing_asks_for_nothing(
        cleared,
        s.wanted_formats(seq).map_values(|f: FormatView| KeyView { seq, format: f }),
        ClipError::Stale,
    );
}

/// Contents come one chunk at a time: whatever happens, at most one chunk is
/// asked for, and only to begin a fetch that was not under way or in answer to
/// the chunk that came before it.
pub proof fn one_chunk_at_a_time(s: ExchangeView, input: InputView, now: u64)
    ensures
        ({
            let out = s.step(input, now).out;
            asks_for_nothing(out) || (out.len() == 1 && asks_for_a_chunk(out[0]) && {
                let key = KeyView {
                    seq: out[0]->msg->ClipRequest_seq,
                    format: out[0]->msg->ClipRequest_format,
                };
                ||| (value_of(s.fetching, key) is None && out[0]->msg->ClipRequest_offset == 0)
                ||| (value_of(s.fetching, key) is Some && input is FromPeer
                    && input->from == value_of(s.fetching, key)->0.from
                    && input->msg is ClipChunk && input->msg->ClipChunk_seq == key.seq
                    && input->msg->ClipChunk_format == key.format)
            })
        }),
{
    match input {
        InputView::PeerGone(peer) => {
            let cut = ExchangeView {
                peers: without_item(s.peers, peer),
                fetching: s.fetching.filter(|e: (KeyView, FetchingView)| e.1.from != peer),
                ..s
            };
            let keys = s.fetched_from(peer);
            failing_asks_for_nothing(cut, keys, ClipError::Cancelled);
            let failed = cut.fail_each(keys, ClipError::Cancelled).after;
            let left = ExchangeView {
                waiting: failed.waiting.filter(
                    |w: WaitingView| !(w.who is Relay && w.who->to == peer),
                ),
                ..failed
            };
            if left.remote is Some {
                forgetting_asks_for_nothing(
                    ExchangeView { remote: None, ..left },
                    left.remote->0.seq,
                );
            }
        },
        InputView::LocalChanged(formats) => {
            replacing_asks_for_nothing(s, None);
        },
        InputView::FromPeer { from, msg } => {
            if let BulkView::ClipOffer(offer) = msg {
                replacing_asks_for_nothing(s, Some(offer.seq));
            }
        },
        _ => {
        },
    }
}

proof fn replacing_asks_for_nothing(s: ExchangeView, except: Option<ClipSeq>)
    ensures
        asks_for_nothing(s.forget_local().out),
        asks_for_nothing(s.forget_local().after.forget_remote(except).out),
{
    let a = s.forget_local().after;
    if let Some(own) = s.local {
        forgetting_asks_for_nothing(ExchangeView { local: None, ..s }, own.seq);
    }
    if let Some(held) = a.remote {
        forgetting_asks_for_nothing(ExchangeView { remote: None, ..a }, held.seq);
    }
}

} // verus!
