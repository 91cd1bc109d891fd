//! Laws of the store, stated over its model and proved.
use vstd::prelude::*;
use crate::model::{
    deadline_after, default_value, replies_of, stays, wakes, EntryModel, ReplyModel, StoreModel, WaiterModel,
    TTL_MS,
};
use crate::worker::{Command, Event};

verus! {

/// The state after `events`, each with the time it arrives, starting from `s`.
pub open spec fn run(s: StoreModel, events: Seq<(Event, u64)>) -> StoreModel
    decreases events.len(),
{
    if events.len() == 0 {
        s
    } else {
        events.last().0.next(run(s, events.drop_last()), events.last().1)
    }
}

/// Whether `e` writes to the key `k`.
pub open spec fn writes(e: Event, k: Seq<char>) -> bool {
    match e {
        Event::Command(Command::Update(key, _)) => key@ == k,
        _ => false,
    }
}

/// A step that does not write to `k` leaves it at the default if it was there.
proof fn lemma_step_keeps_default(s: StoreModel, e: Event, now: u64, k: Seq<char>)
    requires
        s.current(k) == default_value(),
        !writes(e, k),
    ensures
        e.next(s, now).current(k) == default_value(),
{
}

/// A key that no event has written to reads as the default value, whatever
/// else happened.
pub proof fn lemma_unwritten_key_reads_default(events: Seq<(Event, u64)>, k: Seq<char>)
    requires
        forall|i: int| 0 <= i < events.len() ==> !writes(#[trigger] events[i].0, k),
    ensures
        run(StoreModel::empty(), events).current(k) == default_value(),
    decreases events.len(),
{
    if events.len() > 0 {
        let prefix = events.drop_last();
        assert forall|i: int| 0 <= i < prefix.len() implies !writes(#[trigger] prefix[i].0, k) by {
            assert(prefix[i] == events[i]);
        }
        lemma_unwritten_key_reads_default(prefix, k);
        lemma_step_keeps_default(run(StoreModel::empty(), prefix), events.last().0, events.last().1, k);
    }
}

/// A read right after a write of `v` to `k` sees `v`, and answers the
/// reader with it.
pub proof fn lemma_read_after_write(s: StoreModel, k: String, v: String, now: u64, id: u64)
    ensures
        s.update(k@, v@, now).current(k@) == v@,
        Event::Command(Command::GetCurrentValue(k, id)).replies(s.update(k@, v@, now), now)
            == seq![(id, v@)],
{
}

/// Writing the value a long-poll last saw, once or twice, does not answer it:
/// it stays blocked.
pub proof fn lemma_same_value_writes_wake_nobody(
    s: StoreModel,
    id: u64,
    k: Seq<char>,
    v: Seq<char>,
    t1: u64,
    t2: u64,
)
    requires
        s.current(k) == v,
    ensures
        ({
            let w = WaiterModel { id, key: k, last_seen: v };
            let s1 = s.await_different(id, k, v);
            let s2 = s1.update(k, v, t1);
            let s3 = s2.update(k, v, t2);
            &&& s1.waiters.contains(w)
            &&& !s1.woken(k, v).contains(w)
            &&& s2.waiters.contains(w)
            &&& !s2.woken(k, v).contains(w)
            &&& s3.waiters.contains(w)
        }),
{
    let w = WaiterModel { id, key: k, last_seen: v };
    let s1 = s.await_different(id, k, v);
    let s2 = s1.update(k, v, t1);
    assert(s1.waiters.last() == w);
    s1.waiters.filter_lemma(wakes(k, v));
    s1.waiters.lemma_filter_contains(stays(k, v), s1.waiters.len() - 1);
    let i = choose|i: int| 0 <= i < s2.waiters.len() && s2.waiters[i] == w;
    s2.waiters.filter_lemma(wakes(k, v));
    s2.waiters.lemma_filter_contains(stays(k, v), i);
}

/// A long-poll whose last-seen value already differs from the current one is
/// answered at once with the current value, and changes nothing.
pub proof fn lemma_stale_view_answered_at_once(s: StoreModel, id: u64, k: String, last_seen: String, now: u64)
    requires
        s.current(k@) != last_seen@,
    ensures
        ({
            let e = Event::Command(Command::AwaitDifferentValue(k, last_seen, id));
            &&& e.replies(s, now) == seq![(id, s.current(k@))]
            &&& e.next(s, now) == s
        }),
{
}

/// Every long-poll blocked on `k` with last-seen value `v1` is answered with
/// `v2` by a write of `v2 != v1`, and no longer waits; however many there are.
pub proof fn lemma_change_wakes_every_waiter(s: StoreModel, k: Seq<char>, v1: Seq<char>, v2: Seq<char>, now: u64)
    requires
        v1 != v2,
    ensures
        forall|i: int| 0 <= i < s.waiters.len() && (#[trigger] s.waiters[i]).key == k
            && s.waiters[i].last_seen == v1 ==> {
                &&& s.update_replies(k, v2).contains((s.waiters[i].id, v2))
                &&& !s.update(k, v2, now).waiters.contains(s.waiters[i])
            },
{
    assert forall|i: int| 0 <= i < s.waiters.len() && (#[trigger] s.waiters[i]).key == k
        && s.waiters[i].last_seen == v1 implies {
            &&& s.update_replies(k, v2).contains((s.waiters[i].id, v2))
            &&& !s.update(k, v2, now).waiters.contains(s.waiters[i])
        } by {
        let w = s.waiters[i];
        s.waiters.lemma_filter_contains(wakes(k, v2), i);
        let ws = s.woken(k, v2);
        let j = choose|j: int| 0 <= j < ws.len() && ws[j] == w;
        assert(replies_of(ws, v2)[j] == (w.id, v2));
        s.waiters.filter_lemma(stays(k, v2));
    }
}

/// A long-poll that blocks on `k` is answered by the next write of another
/// value, with that value; so are two that block one after the other.
pub proof fn lemma_blocked_polls_answered_by_change(
    s: StoreModel,
    k: Seq<char>,
    v1: Seq<char>,
    v2: Seq<char>,
    id1: u64,
    id2: u64,
    now: u64,
)
    requires
        s.current(k) == v1,
        v1 != v2,
    ensures
        ({
            let s2 = s.await_different(id1, k, v1).await_different(id2, k, v1);
            &&& s2.update_replies(k, v2).contains((id1, v2))
            &&& s2.update_replies(k, v2).contains((id2, v2))
        }),
{
    let s1 = s.await_different(id1, k, v1);
    let s2 = s1.await_different(id2, k, v1);
    assert(s2.waiters[s2.waiters.len() - 2] == WaiterModel { id: id1, key: k, last_seen: v1 });
    assert(s2.waiters[s2.waiters.len() - 1] == WaiterModel { id: id2, key: k, last_seen: v1 });
    lemma_change_wakes_every_waiter(s2, k, v1, v2, now);
}

/// Either `k` still has the deadline `d`, or it already reads as the default.
pub open spec fn expires_by(s: StoreModel, k: Seq<char>, d: u64) -> bool {
    ||| s.entries.contains_key(k) && s.entries[k].deadline == Some(d)
    ||| s.current(k) == default_value()
}

/// A step that does not write to `k` keeps `expires_by(k, d)`.
proof fn lemma_step_keeps_expires_by(s: StoreModel, e: Event, now: u64, k: Seq<char>, d: u64)
    requires
        expires_by(s, k, d),
        !writes(e, k),
    ensures
        expires_by(e.next(s, now), k, d),
{
}

proof fn lemma_run_keeps_expires_by(s: StoreModel, events: Seq<(Event, u64)>, k: Seq<char>, d: u64)
    requires
        expires_by(s, k, d),
        forall|i: int| 0 <= i < events.len() ==> !writes(#[trigger] events[i].0, k),
    ensures
        expires_by(run(s, events), k, d),
    decreases events.len(),
{
    if events.len() > 0 {
        let prefix = events.drop_last();
        assert forall|i: int| 0 <= i < prefix.len() implies !writes(#[trigger] prefix[i].0, k) by {
            assert(prefix[i] == events[i]);
        }
        lemma_run_keeps_expires_by(s, prefix, k, d);
        lemma_step_keeps_expires_by(run(s, prefix), events.last().0, events.last().1, k, d);
    }
}

/// After a write to `k` at `t`, and any events that do not write to `k`, the
/// timer of `k` firing at or after `t + TTL` leaves `k` at the default value.
pub proof fn lemma_expires_after_ttl(
    s: StoreModel,
    k: Seq<char>,
    v: Seq<char>,
    t: u64,
    events: Seq<(Event, u64)>,
    now: u64,
)
    requires
        t <= u64::MAX - TTL_MS,
        forall|i: int| 0 <= i < events.len() ==> !writes(#[trigger] events[i].0, k),
        now >= t + TTL_MS,
    ensures
        run(s.update(k, v, t), events).expire(k, now).current(k) == default_value(),
{
    lemma_run_keeps_expires_by(s.update(k, v, t), events, k, deadline_after(t));
}

/// Whether `e`, arriving at `now`, is a timer of `k` at or after `d`.
pub open spec fn fires_at_or_after(e: Event, now: u64, k: Seq<char>, d: u64) -> bool {
    match e {
        Event::Expired(key) => key@ == k && now >= d,
        _ => false,
    }
}

proof fn lemma_run_keeps_entry(s: StoreModel, events: Seq<(Event, u64)>, k: Seq<char>, e: EntryModel)
    requires
        s.entries.contains_key(k),
        s.entries[k] == e,
        e.deadline is Some,
        forall|i: int| 0 <= i < events.len() ==> !writes(#[trigger] events[i].0, k)
            && !fires_at_or_after(events[i].0, events[i].1, k, e.deadline->0),
    ensures
        run(s, events).entries.contains_key(k),
        run(s, events).entries[k] == e,
    decreases events.len(),
{
    if events.len() > 0 {
        let prefix = events.drop_last();
        assert forall|i: int| 0 <= i < prefix.len() implies !writes(#[trigger] prefix[i].0, k)
            && !fires_at_or_after(prefix[i].0, prefix[i].1, k, e.deadline->0) by {
            assert(prefix[i] == events[i]);
        }
        lemma_run_keeps_entry(s, prefix, k, e);
        assert(!fires_at_or_after(events[events.len() - 1].0, events[events.len() - 1].1, k, e.deadline->0));
    }
}

/// After a write of `v` to `k` at `t`, whatever follows that neither writes
/// to `k` nor is a timer of `k` at or after `t + TTL` leaves `k` holding `v`:
/// the value lives a full TTL after each write, so writes spaced less than
/// the TTL apart keep it from ever expiring.
pub proof fn lemma_value_lives_until_ttl(
    s: StoreModel,
    k: Seq<char>,
    v: Seq<char>,
    t: u64,
    events: Seq<(Event, u64)>,
)
    requires
        t <= u64::MAX - TTL_MS,
        forall|i: int| 0 <= i < events.len() ==> !writes(#[trigger] events[i].0, k)
            && !fires_at_or_after(events[i].0, events[i].1, k, deadline_after(t)),
    ensures
        run(s.update(k, v, t), events).current(k) == v,
{
    let e = EntryModel { value: v, deadline: Some(deadline_after(t)) };
    lemma_run_keeps_entry(s.update(k, v, t), events, k, e);
}

/// A timer of `k` that fires before `t + TTL`, where `t` is the time of the
/// latest write to `k`, changes nothing and answers nobody: each write
/// postpones expiry, so writes spaced less than the TTL apart keep the value.
pub proof fn lemma_write_postpones_expiry(s: StoreModel, k: Seq<char>, v: Seq<char>, t: u64, now: u64)
    requires
        t <= u64::MAX - TTL_MS,
        now < t + TTL_MS,
    ensures
        s.update(k, v, t).expire(k, now) == s.update(k, v, t),
        s.update(k, v, t).expire_replies(k, now) == Seq::<ReplyModel>::empty(),
        s.update(k, v, t).expire(k, now).current(k) == v,
{
}

/// Waiters that a filter keeps came from the filtered sequence and pass it.
proof fn lemma_filtered_waiter(ws: Seq<WaiterModel>, p: spec_fn(WaiterModel) -> bool, i: int)
    requires
        0 <= i < ws.filter(p).len(),
    ensures
        p(ws.filter(p)[i]),
        exists|j: int| 0 <= j < ws.len() && ws[j] == ws.filter(p)[i],
{
    ws.lemma_filter_pred(p, i);
    assert(ws.filter(p).contains(ws.filter(p)[i]));
    ws.lemma_filter_contains_rev(p, ws.filter(p)[i]);
}

/// A key other than `k` that was watched stays watched once the waiters
/// answered by a value of `k` are gone.
proof fn lemma_other_key_stays_watched(s: StoreModel, k: Seq<char>, v: Seq<char>, k2: Seq<char>)
    requires
        k2 != k,
        s.watched(k2),
    ensures
        (StoreModel { entries: s.entries, waiters: s.kept(k, v) }).watched(k2),
{
    let j = choose|j: int| 0 <= j < s.waiters.len() && #[trigger] s.waiters[j].key == k2;
    s.waiters.lemma_filter_contains(stays(k, v), j);
    let kept = s.kept(k, v);
    let m = choose|m: int| 0 <= m < kept.len() && kept[m] == s.waiters[j];
    let after = StoreModel { entries: s.entries, waiters: kept };
    assert(after.waiters[m].key == k2);
}

/// The empty store is consistent.
pub proof fn lemma_empty_consistent()
    ensures
        StoreModel::empty().consistent(),
{
}

/// A write keeps the store consistent.
pub proof fn lemma_update_keeps_consistent(s: StoreModel, k: Seq<char>, v: Seq<char>, now: u64)
    requires
        s.consistent(),
    ensures
        s.update(k, v, now).consistent(),
{
    let n = s.update(k, v, now);
    assert forall|i: int| 0 <= i < n.waiters.len() implies {
        let w = #[trigger] n.waiters[i];
        &&& n.entries.contains_key(w.key)
        &&& n.entries[w.key].value == w.last_seen
    } by {
        lemma_filtered_waiter(s.waiters, stays(k, v), i);
    }
    assert forall|k2: Seq<char>| #[trigger] n.entries.contains_key(k2) implies
        n.entries[k2].deadline is Some || n.watched(k2) by {
        if k2 != k && s.entries[k2].deadline is None {
            lemma_other_key_stays_watched(s, k, v, k2);
        }
    }
}

/// A long-poll keeps the store consistent.
pub proof fn lemma_await_keeps_consistent(s: StoreModel, id: u64, k: Seq<char>, last: Seq<char>)
    requires
        s.consistent(),
    ensures
        s.await_different(id, k, last).consistent(),
{
    let n = s.await_different(id, k, last);
    if s.current(k) == last {
        assert forall|k2: Seq<char>| #[trigger] n.entries.contains_key(k2) implies
            n.entries[k2].deadline is Some || n.watched(k2) by {
            if k2 == k {
                assert(n.waiters[n.waiters.len() - 1].key == k);
            } else if s.entries[k2].deadline is None {
                let j = choose|j: int| 0 <= j < s.waiters.len() && #[trigger] s.waiters[j].key == k2;
                assert(n.waiters[j] == s.waiters[j]);
            }
        }
        assert forall|i: int| 0 <= i < n.waiters.len() implies {
            let w = #[trigger] n.waiters[i];
            &&& n.entries.contains_key(w.key)
            &&& n.entries[w.key].value == w.last_seen
        } by {
            if i < s.waiters.len() {
                assert(n.waiters[i] == s.waiters[i]);
            }
        }
    }
}

/// A timer firing keeps the store consistent.
pub proof fn lemma_expire_keeps_consistent(s: StoreModel, k: Seq<char>, now: u64)
    requires
        s.consistent(),
    ensures
        s.expire(k, now).consistent(),
{
    if s.due(k, now) {
        let n = s.expire(k, now);
        let d = default_value();
        assert forall|i: int| 0 <= i < n.waiters.len() implies {
            let w = #[trigger] n.waiters[i];
            &&& n.entries.contains_key(w.key)
            &&& n.entries[w.key].value == w.last_seen
        } by {
            lemma_filtered_waiter(s.waiters, stays(k, d), i);
            if n.waiters[i].key == k {
                let after = StoreModel { entries: s.entries, waiters: n.waiters };
                assert(after.waiters[i].key == k);
            }
        }
        assert forall|k2: Seq<char>| #[trigger] n.entries.contains_key(k2) implies
            n.entries[k2].deadline is Some || n.watched(k2) by {
            if k2 != k && s.entries[k2].deadline is None {
                lemma_other_key_stays_watched(s, k, d, k2);
            }
        }
    }
}

/// Every event keeps the store consistent.
pub proof fn lemma_event_keeps_consistent(s: StoreModel, e: Event, now: u64)
    requires
        s.consistent(),
    ensures
        e.next(s, now).consistent(),
{
    match e {
        Event::Command(Command::Update(k, v)) => lemma_update_keeps_consistent(s, k@, v@, now),
        Event::Command(Command::GetCurrentValue(_, _)) => {},
        Event::Command(Command::AwaitDifferentValue(k, last, id)) =>
            lemma_await_keeps_consistent(s, id, k@, last@),
        Event::Expired(k) => lemma_expire_keeps_consistent(s, k@, now),
    }
}

/// In a consistent store, writing the value a key already holds answers
/// nobody and leaves every waiter blocked; only the deadline moves.
pub proof fn lemma_same_value_write_is_silent(s: StoreModel, k: Seq<char>, t: u64)
    requires
        s.consistent(),
    ensures
        s.update_replies(k, s.current(k)) == Seq::<ReplyModel>::empty(),
        s.update(k, s.current(k), t).waiters == s.waiters,
{
    let v = s.current(k);
    let woken = s.woken(k, v);
    if woken.len() > 0 {
        lemma_filtered_waiter(s.waiters, wakes(k, v), 0);
        let j = choose|j: int| 0 <= j < s.waiters.len() && s.waiters[j] == woken[0];
        assert(s.waiters[j].key == k);
    }
    assert(replies_of(woken, v) =~= Seq::<ReplyModel>::empty());
    lemma_filter_keeps_all(s.waiters, stays(k, v));
}

/// A filter that every element passes keeps the sequence whole.
proof fn lemma_filter_keeps_all(ws: Seq<WaiterModel>, p: spec_fn(WaiterModel) -> bool)
    requires
        forall|i: int| 0 <= i < ws.len() ==> p(#[trigger] ws[i]),
    ensures
        ws.filter(p) == ws,
    decreases ws.len(),
{
    reveal(Seq::filter);
    if ws.len() > 0 {
        let rest = ws.drop_last();
        assert forall|i: int| 0 <= i < rest.len() implies p(#[trigger] rest[i]) by {
            assert(rest[i] == ws[i]);
        }
        lemma_filter_keeps_all(rest, p);
        assert(ws.filter(p) =~= ws);
    }
}

} // verus!
