//! The worker: the single owner of the store, which applies one command or
//! timer event at a time and returns what must be sent out.
use vstd::prelude::*;
use crate::laws::{lemma_await_keeps_consistent, lemma_expire_keeps_consistent, lemma_update_keeps_consistent};
use crate::model::{default_value, replies_of, stays, wakes, TTL_MS, EntryModel, ExpiryAction, ReplyModel, StoreModel, WaiterModel};

verus! {

/// The state of one live key.
pub struct Slot {
    pub key: String,
    pub value: String,
    pub deadline: Option<u64>,
}

impl View for Slot {
    type V = EntryModel;

    open spec fn view(&self) -> EntryModel {
        EntryModel { value: self.value@, deadline: self.deadline }
    }
}

/// A blocked long-poll, identified by the id its caller chose.
pub struct Waiter {
    pub id: u64,
    pub key: String,
    pub last_seen: String,
}

impl View for Waiter {
    type V = WaiterModel;

    open spec fn view(&self) -> WaiterModel {
        WaiterModel { id: self.id, key: self.key@, last_seen: self.last_seen@ }
    }
}

/// The answer owed to the long-poll `id`.
pub struct Reply {
    pub id: u64,
    pub value: String,
}

impl View for Reply {
    type V = ReplyModel;

    open spec fn view(&self) -> ReplyModel {
        (self.id, self.value@)
    }
}

/// What a write returns: the timer action for the key and the long-polls it
/// answers.
pub struct WriteOutcome {
    pub expiry: ExpiryAction,
    pub replies: Vec<Reply>,
}

pub open spec fn waiters_view(ws: Seq<Waiter>) -> Seq<WaiterModel> {
    ws.map_values(|w: Waiter| w@)
}

pub open spec fn replies_view(rs: Seq<Reply>) -> Seq<ReplyModel> {
    rs.map_values(|r: Reply| r@)
}

/// Splits `ws` into the waiters on `key` that have seen a value other than
/// `v`, answered with `v`, and the rest, kept in order.
fn split_waiters(ws: &Vec<Waiter>, key: &String, v: &String) -> (r: (Vec<Waiter>, Vec<Reply>))
    ensures
        waiters_view(r.0@) == waiters_view(ws@).filter(stays(key@, v@)),
        replies_view(r.1@) == replies_of(waiters_view(ws@).filter(wakes(key@, v@)), v@),
{
    let ghost pw = wakes(key@, v@);
    let ghost pk = stays(key@, v@);
    let ghost all = waiters_view(ws@);
    let mut kept: Vec<Waiter> = Vec::new();
    let mut replies: Vec<Reply> = Vec::new();
    let mut i: usize = 0;
    while i < ws.len()
        invariant
            i <= ws.len(),
            all == waiters_view(ws@),
            pw == wakes(key@, v@),
            pk == stays(key@, v@),
            waiters_view(kept@) == all.take(i as int).filter(pk),
            replies_view(replies@) == replies_of(all.take(i as int).filter(pw), v@),
        decreases ws.len() - i,
    {
        let w = &ws[i];
        proof {
            reveal(Seq::filter);
            assert(all.take(i + 1).drop_last() =~= all.take(i as int));
            assert(all.take(i + 1).last() == w@);
        }
        if w.key == *key && !(w.last_seen == *v) {
            proof {
                assert(pw(w@) && !pk(w@));
                assert(all.take(i + 1).filter(pw) == all.take(i as int).filter(pw).push(w@));
                assert(all.take(i + 1).filter(pk) == all.take(i as int).filter(pk));
            }
            let ghost before = replies@;
            let value = v.clone();
            replies.push(Reply { id: w.id, value });
            proof {
                assert(replies_view(replies@) =~= replies_view(before).push((w.id, v@)));
                assert(replies_of(all.take(i as int).filter(pw).push(w@), v@)
                    =~= replies_of(all.take(i as int).filter(pw), v@).push((w.id, v@)));
                assert(replies_view(replies@) =~= replies_of(all.take(i + 1).filter(pw), v@));
            }
        } else {
            proof {
                assert(!pw(w@) && pk(w@));
                assert(all.take(i + 1).filter(pk) == all.take(i as int).filter(pk).push(w@));
                assert(all.take(i + 1).filter(pw) == all.take(i as int).filter(pw));
            }
            kept.push(Waiter { id: w.id, key: w.key.clone(), last_seen: w.last_seen.clone() });
            proof {
                assert(waiters_view(kept@) =~= all.take(i + 1).filter(pk));
            }
        }
        i = i + 1;
    }
    proof {
        assert(all.take(ws.len() as int) =~= all);
    }
    (kept, replies)
}

/// A request from a caller. Each carries the id under which its answer is
/// returned, but for writes, which are answered by the hand-off alone.
pub enum Command {
    Update(String, String),
    GetCurrentValue(String, u64),
    AwaitDifferentValue(String, String, u64),
}

/// What the worker reacts to: a command, or the timer of a key firing.
pub enum Event {
    Command(Command),
    Expired(String),
}

/// What the runtime must carry out after one event: a timer action for a
/// key, if any, and the answers to send.
pub struct Step {
    pub expiry: Option<(String, ExpiryAction)>,
    pub replies: Vec<Reply>,
}

impl Event {
    /// The state after this event arrives at `now`.
    pub open spec fn next(&self, s: StoreModel, now: u64) -> StoreModel {
        match self {
            Event::Command(Command::Update(k, v)) => s.update(k@, v@, now),
            Event::Command(Command::GetCurrentValue(_, _)) => s,
            Event::Command(Command::AwaitDifferentValue(k, last, id)) => s.await_different(*id, k@, last@),
            Event::Expired(k) => s.expire(k@, now),
        }
    }

    /// The answers this event brings about.
    pub open spec fn replies(&self, s: StoreModel, now: u64) -> Seq<ReplyModel> {
        match self {
            Event::Command(Command::Update(k, v)) => s.update_replies(k@, v@),
            Event::Command(Command::GetCurrentValue(k, id)) => seq![(*id, s.current(k@))],
            Event::Command(Command::AwaitDifferentValue(k, last, id)) =>
                if s.current(k@) != last@ { seq![(*id, s.current(k@))] } else { Seq::empty() },
            Event::Expired(k) => s.expire_replies(k@, now),
        }
    }

    /// The timer action this event asks for.
    pub open spec fn expiry(&self, s: StoreModel) -> Option<(Seq<char>, ExpiryAction)> {
        match self {
            Event::Command(Command::Update(k, _)) => Some((k@, s.update_expiry(k@))),
            _ => None,
        }
    }
}

/// The store and its worker: all live keys and all blocked long-polls.
pub struct Worker {
    slots: Vec<Slot>,
    waiters: Vec<Waiter>,
    entries: Ghost<Map<Seq<char>, EntryModel>>,
}

impl View for Worker {
    type V = StoreModel;

    closed spec fn view(&self) -> StoreModel {
        StoreModel { entries: self.entries@, waiters: waiters_view(self.waiters@) }
    }
}

impl Worker {
    /// The slots hold each key once and agree with the model's entries, and
    /// the model is consistent.
    pub closed spec fn wf(&self) -> bool {
        &&& self@.consistent()
        &&& forall|i: int, j: int|
            0 <= i < j < self.slots@.len() ==> self.slots@[i].key@ != self.slots@[j].key@
        &&& forall|i: int|
            0 <= i < self.slots@.len() ==> {
                &&& self.entries@.contains_key(#[trigger] self.slots@[i].key@)
                &&& self.entries@[self.slots@[i].key@] == self.slots@[i]@
            }
        &&& forall|k: Seq<char>|
            #[trigger] self.entries@.contains_key(k) ==> exists|i: int|
                0 <= i < self.slots@.len() && self.slots@[i].key@ == k
    }

    /// A well-formed worker's model is consistent.
    pub proof fn lemma_consistent(&self)
        requires
            self.wf(),
        ensures
            self@.consistent(),
    {
    }

    /// An empty store: every key reads as the default value.
    pub fn new() -> (r: Worker)
        ensures
            r.wf(),
            r@ == StoreModel::empty(),
    {
        let r = Worker { slots: Vec::new(), waiters: Vec::new(), entries: Ghost(Map::empty()) };
        assert(r@.waiters =~= Seq::<WaiterModel>::empty());
        r
    }

    /// The index of the slot of `key`, if it is live.
    fn find(&self, key: &String) -> (r: Option<usize>)
        requires
            self.wf(),
        ensures
            match r {
                Some(i) => i < self.slots@.len() && self.slots@[i as int].key@ == key@
                    && self.entries@.contains_key(key@),
                None => !self.entries@.contains_key(key@),
            },
    {
        let mut i: usize = 0;
        while i < self.slots.len()
            invariant
                self.wf(),
                i <= self.slots@.len(),
                forall|j: int| 0 <= j < i ==> self.slots@[j].key@ != key@,
            decreases self.slots.len() - i,
        {
            if self.slots[i].key == *key {
                assert(self.entries@.contains_key(self.slots@[i as int].key@));
                return Some(i);
            }
            i = i + 1;
        }
        None
    }

    /// The current value of `key`, or the default if it is not live.
    pub fn get_current_value(&self, key: &String) -> (r: String)
        requires
            self.wf(),
        ensures
            r@ == self@.current(key@),
    {
        match self.find(key) {
            Some(i) => self.slots[i].value.clone(),
            None => String::new(),
        }
    }

    /// Writes `value` to `key` at time `now` (in milliseconds). The key's
    /// deadline slides to `now + TTL` whether or not the value changed; the
    /// long-polls on `key` that last saw another value are answered with it.
    pub fn update(&mut self, key: String, value: String, now: u64) -> (r: WriteOutcome)
        requires
            old(self).wf(),
            now <= u64::MAX - TTL_MS,
        ensures
            final(self).wf(),
            final(self)@ == old(self)@.update(key@, value@, now),
            replies_view(r.replies@) == old(self)@.update_replies(key@, value@),
            r.expiry == old(self)@.update_expiry(key@),
    {
        proof {
            lemma_update_keeps_consistent(self@, key@, value@, now);
        }
        let deadline = now + TTL_MS;
        let idx = self.find(&key);
        let expiry = match idx {
            Some(i) => match self.slots[i].deadline {
                Some(_) => ExpiryAction::Reset,
                None => ExpiryAction::Insert,
            },
            None => ExpiryAction::Insert,
        };
        let (kept, replies) = split_waiters(&self.waiters, &key, &value);
        self.waiters = kept;
        let ghost k = key@;
        let ghost e = EntryModel { value: value@, deadline: Some(deadline) };
        let ghost old_slots = self.slots@;
        let ghost old_entries = self.entries@;
        let slot = Slot { key, value, deadline: Some(deadline) };
        assert(slot.key@ == k && slot@ == e);
        match idx {
            Some(i) => {
                self.slots.set(i, slot);
                self.entries = Ghost(old_entries.insert(k, e));
                assert forall|kk: Seq<char>| #[trigger] self.entries@.contains_key(kk) implies exists|j: int|
                    0 <= j < self.slots@.len() && self.slots@[j].key@ == kk by {
                    if kk != k {
                        let j = choose|j: int| 0 <= j < old_slots.len() && old_slots[j].key@ == kk;
                        assert(self.slots@[j].key@ == kk);
                    } else {
                        assert(self.slots@[i as int].key@ == kk);
                    }
                }
            },
            None => {
                self.slots.push(slot);
                self.entries = Ghost(old_entries.insert(k, e));
                assert forall|j: int| 0 <= j < old_slots.len() implies old_slots[j].key@ != k by {
                    assert(old_entries.contains_key(old_slots[j].key@));
                }
                assert forall|kk: Seq<char>| #[trigger] self.entries@.contains_key(kk) implies exists|j: int|
                    0 <= j < self.slots@.len() && self.slots@[j].key@ == kk by {
                    if kk != k {
                        let j = choose|j: int| 0 <= j < old_slots.len() && old_slots[j].key@ == kk;
                        assert(self.slots@[j].key@ == kk);
                    } else {
                        assert(self.slots@[old_slots.len() as int].key@ == kk);
                    }
                }
            },
        }
        WriteOutcome { expiry, replies }
    }

    /// A long-poll by waiter `id` on `key`, which last saw `last_seen`. If the
    /// current value differs it is returned at once; otherwise the waiter is
    /// registered and `None` comes back: the answer is a later reply.
    pub fn await_different_value(&mut self, id: u64, key: String, last_seen: String) -> (r: Option<String>)
        requires
            old(self).wf(),
        ensures
            final(self).wf(),
            final(self)@ == old(self)@.await_different(id, key@, last_seen@),
            match r {
                Some(v) => v@ == old(self)@.current(key@) && v@ != last_seen@,
                None => old(self)@.current(key@) == last_seen@,
            },
    {
        let current = self.get_current_value(&key);
        if !(current == last_seen) {
            return Some(current);
        }
        let ghost old_slots = self.slots@;
        let ghost old_entries = self.entries@;
        let ghost old_waiters = self.waiters@;
        proof {
            lemma_await_keeps_consistent(self@, id, key@, last_seen@);
        }
        if self.find(&key).is_none() {
            let ghost k = key@;
            let ghost e = EntryModel { value: default_value(), deadline: None };
            let slot = Slot { key: key.clone(), value: String::new(), deadline: None };
            assert(slot.key@ == k && slot@ == e);
            self.slots.push(slot);
            self.entries = Ghost(old_entries.insert(k, e));
            assert forall|j: int| 0 <= j < old_slots.len() implies old_slots[j].key@ != k by {
                assert(old_entries.contains_key(old_slots[j].key@));
            }
            assert forall|kk: Seq<char>| #[trigger] self.entries@.contains_key(kk) implies exists|j: int|
                0 <= j < self.slots@.len() && self.slots@[j].key@ == kk by {
                if kk != k {
                    let j = choose|j: int| 0 <= j < old_slots.len() && old_slots[j].key@ == kk;
                    assert(self.slots@[j].key@ == kk);
                } else {
                    assert(self.slots@[old_slots.len() as int].key@ == kk);
                }
            }
        }
        let w = Waiter { id, key, last_seen };
        self.waiters.push(w);
        assert(waiters_view(self.waiters@) =~= waiters_view(old_waiters).push(w@));
        None
    }

    /// Whether some long-poll on `key` is still blocked.
    fn is_watched(&self, key: &String) -> (r: bool)
        ensures
            r == self@.watched(key@),
    {
        let mut i: usize = 0;
        while i < self.waiters.len()
            invariant
                i <= self.waiters@.len(),
                forall|j: int| 0 <= j < i ==> self.waiters@[j].key@ != key@,
            decreases self.waiters.len() - i,
        {
            if self.waiters[i].key == *key {
                assert(self@.waiters[i as int].key == key@);
                return true;
            }
            i = i + 1;
        }
        assert forall|j: int| 0 <= j < self@.waiters.len() implies #[trigger] self@.waiters[j].key != key@ by {
            assert(self@.waiters[j] == self.waiters@[j]@);
        }
        false
    }

    /// The timer fired for `key` at time `now`. If the key's deadline has
    /// passed, its value resets to the default, the long-polls on it that
    /// last saw another value are answered, and the key is dropped unless a
    /// long-poll still waits on it. A stale timer changes nothing.
    pub fn expire(&mut self, key: &String, now: u64) -> (r: Vec<Reply>)
        requires
            old(self).wf(),
        ensures
            final(self).wf(),
            final(self)@ == old(self)@.expire(key@, now),
            replies_view(r@) == old(self)@.expire_replies(key@, now),
    {
        proof {
            lemma_expire_keeps_consistent(self@, key@, now);
        }
        let idx = self.find(key);
        let i = match idx {
            Some(i) => i,
            None => {
                assert(replies_view(Seq::<Reply>::empty()) =~= Seq::<ReplyModel>::empty());
                return Vec::new();
            },
        };
        let due = match self.slots[i].deadline {
            Some(d) => d <= now,
            None => false,
        };
        if !due {
            assert(replies_view(Seq::<Reply>::empty()) =~= Seq::<ReplyModel>::empty());
            return Vec::new();
        }
        let ghost k = key@;
        let ghost old_slots = self.slots@;
        let ghost old_entries = self.entries@;
        let empty = String::new();
        let (kept, replies) = split_waiters(&self.waiters, key, &empty);
        self.waiters = kept;
        if self.is_watched(key) {
            let ghost e = EntryModel { value: default_value(), deadline: None };
            let slot = Slot { key: key.clone(), value: String::new(), deadline: None };
            assert(slot.key@ == k && slot@ == e);
            self.slots.set(i, slot);
            self.entries = Ghost(old_entries.insert(k, e));
            assert forall|kk: Seq<char>| #[trigger] self.entries@.contains_key(kk) implies exists|j: int|
                0 <= j < self.slots@.len() && self.slots@[j].key@ == kk by {
                if kk != k {
                    let j = choose|j: int| 0 <= j < old_slots.len() && old_slots[j].key@ == kk;
                    assert(self.slots@[j].key@ == kk);
                } else {
                    assert(self.slots@[i as int].key@ == kk);
                }
            }
        } else {
            self.slots.remove(i);
            self.entries = Ghost(old_entries.remove(k));
            assert forall|a: int, b: int| 0 <= a < b < self.slots@.len() implies
                self.slots@[a].key@ != self.slots@[b].key@ by {
                let a0 = if a < i { a } else { a + 1 };
                let b0 = if b < i { b } else { b + 1 };
                assert(self.slots@[a] == old_slots[a0] && self.slots@[b] == old_slots[b0]);
            }
            assert forall|j: int| 0 <= j < self.slots@.len() implies {
                &&& self.entries@.contains_key(#[trigger] self.slots@[j].key@)
                &&& self.entries@[self.slots@[j].key@] == self.slots@[j]@
            } by {
                let j0 = if j < i { j } else { j + 1 };
                assert(self.slots@[j] == old_slots[j0]);
                assert(old_slots[j0].key@ != old_slots[i as int].key@);
            }
            assert forall|kk: Seq<char>| #[trigger] self.entries@.contains_key(kk) implies exists|j: int|
                0 <= j < self.slots@.len() && self.slots@[j].key@ == kk by {
                let j0 = choose|j: int| 0 <= j < old_slots.len() && old_slots[j].key@ == kk;
                assert(j0 != i);
                let j = if j0 < i { j0 } else { j0 - 1 };
                assert(self.slots@[j] == old_slots[j0]);
            }
        }
        replies
    }

    /// Applies one event at time `now` and says what must be sent out.
    pub fn handle(&mut self, event: Event, now: u64) -> (r: Step)
        requires
            old(self).wf(),
            now <= u64::MAX - TTL_MS,
        ensures
            final(self).wf(),
            final(self)@ == event.next(old(self)@, now),
            replies_view(r.replies@) == event.replies(old(self)@, now),
            match r.expiry {
                Some((k, a)) => event.expiry(old(self)@) == Some((k@, a)),
                None => event.expiry(old(self)@) is None,
            },
    {
        match event {
            Event::Command(Command::Update(key, value)) => {
                let k = key.clone();
                let out = self.update(key, value, now);
                Step { expiry: Some((k, out.expiry)), replies: out.replies }
            },
            Event::Command(Command::GetCurrentValue(key, id)) => {
                let value = self.get_current_value(&key);
                let mut replies: Vec<Reply> = Vec::new();
                replies.push(Reply { id, value });
                assert(replies_view(replies@) =~= seq![(id, self@.current(key@))]);
                Step { expiry: None, replies }
            },
            Event::Command(Command::AwaitDifferentValue(key, last_seen, id)) => {
                let mut replies: Vec<Reply> = Vec::new();
                match self.await_different_value(id, key, last_seen) {
                    Some(value) => {
                        replies.push(Reply { id, value });
                    },
                    None => {},
                }
                assert(replies_view(replies@) =~= event.replies(old(self)@, now));
                Step { expiry: None, replies }
            },
            Event::Expired(key) => {
                let replies = self.expire(&key, now);
                Step { expiry: None, replies }
            },
        }
    }
}

} // verus!
