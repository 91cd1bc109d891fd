//! The mathematical model of the store: what each key holds, when it
//! expires, and who waits on it; and how each event changes that.
use vstd::prelude::*;

verus! {

/// Length of the sliding expiration window, in milliseconds.
pub const TTL_MS: u64 = 5000;

/// The value a key holds before its first write and after it expires.
pub open spec fn default_value() -> Seq<char> {
    Seq::empty()
}

/// The deadline that a write at `now` schedules.
pub open spec fn deadline_after(now: u64) -> u64 {
    (now + TTL_MS) as u64
}

/// What the store keeps for one live key.
pub ghost struct EntryModel {
    pub value: Seq<char>,
    /// When the value resets; `None` for a key kept alive only by waiters.
    pub deadline: Option<u64>,
}

/// A long-poll that is still blocked.
pub ghost struct WaiterModel {
    pub id: u64,
    pub key: Seq<char>,
    pub last_seen: Seq<char>,
}

/// The whole state: the live keys and the blocked long-polls, oldest first.
pub ghost struct StoreModel {
    pub entries: Map<Seq<char>, EntryModel>,
    pub waiters: Seq<WaiterModel>,
}

/// A long-poll answered: the waiter's id and the value it receives.
pub type ReplyModel = (u64, Seq<char>);

/// What the timer must do for a key after a write.
pub enum ExpiryAction {
    /// The key had no pending deadline: schedule a new one.
    Insert,
    /// The key had one: move it to the new deadline.
    Reset,
}

impl StoreModel {
    pub open spec fn empty() -> StoreModel {
        StoreModel { entries: Map::empty(), waiters: Seq::empty() }
    }

    /// The value a read of `k` sees.
    pub open spec fn current(self, k: Seq<char>) -> Seq<char> {
        if self.entries.contains_key(k) {
            self.entries[k].value
        } else {
            default_value()
        }
    }

    /// Waiters on `k` whose last-seen value differs from `v`.
    pub open spec fn woken(self, k: Seq<char>, v: Seq<char>) -> Seq<WaiterModel> {
        self.waiters.filter(wakes(k, v))
    }

    /// The waiters that stay blocked once those of `woken(k, v)` are answered.
    pub open spec fn kept(self, k: Seq<char>, v: Seq<char>) -> Seq<WaiterModel> {
        self.waiters.filter(stays(k, v))
    }

    /// The store's invariant: a blocked waiter's key is live and holds the
    /// value the waiter last saw; a live key either has a deadline or is
    /// kept alive by a waiter.
    pub open spec fn consistent(self) -> bool {
        &&& forall|i: int| 0 <= i < self.waiters.len() ==> {
            let w = #[trigger] self.waiters[i];
            &&& self.entries.contains_key(w.key)
            &&& self.entries[w.key].value == w.last_seen
        }
        &&& forall|k: Seq<char>| #[trigger] self.entries.contains_key(k) ==>
            self.entries[k].deadline is Some || self.watched(k)
    }

    /// Whether some waiter on `k` is still blocked.
    pub open spec fn watched(self, k: Seq<char>) -> bool {
        exists|i: int| 0 <= i < self.waiters.len() && #[trigger] self.waiters[i].key == k
    }

    /// A write of `v` to `k` at `now`: the value is replaced, the deadline
    /// slides to `now + TTL`, and every waiter on `k` that has seen another
    /// value is answered with `v`.
    pub open spec fn update(self, k: Seq<char>, v: Seq<char>, now: u64) -> StoreModel {
        StoreModel {
            entries: self.entries.insert(
                k,
                EntryModel { value: v, deadline: Some(deadline_after(now)) },
            ),
            waiters: self.kept(k, v),
        }
    }

    /// The long-polls answered by a write of `v` to `k`.
    pub open spec fn update_replies(self, k: Seq<char>, v: Seq<char>) -> Seq<ReplyModel> {
        replies_of(self.woken(k, v), v)
    }

    /// What the timer must do after a write to `k`.
    pub open spec fn update_expiry(self, k: Seq<char>) -> ExpiryAction {
        if self.entries.contains_key(k) && self.entries[k].deadline is Some {
            ExpiryAction::Reset
        } else {
            ExpiryAction::Insert
        }
    }

    /// A long-poll on `k` by waiter `id` that last saw `last_seen`: answered
    /// at once when the current value differs, else registered (and `k` kept
    /// alive at the default value if it was not live).
    pub open spec fn await_different(self, id: u64, k: Seq<char>, last_seen: Seq<char>) -> StoreModel {
        if self.current(k) != last_seen {
            self
        } else {
            StoreModel {
                entries: if self.entries.contains_key(k) {
                    self.entries
                } else {
                    self.entries.insert(k, EntryModel { value: default_value(), deadline: None })
                },
                waiters: self.waiters.push(WaiterModel { id, key: k, last_seen }),
            }
        }
    }

    /// Whether the deadline of `k` has passed at `now`.
    pub open spec fn due(self, k: Seq<char>, now: u64) -> bool {
        &&& self.entries.contains_key(k)
        &&& self.entries[k].deadline is Some
        &&& self.entries[k].deadline->0 <= now
    }

    /// The timer fired for `k` at `now`. If the deadline has passed, the
    /// value resets to the default, waiters that had seen another value are
    /// answered with it, and the key is dropped unless a waiter remains.
    /// Otherwise (a stale timer) nothing changes.
    pub open spec fn expire(self, k: Seq<char>, now: u64) -> StoreModel {
        if self.due(k, now) {
            let rest = self.kept(k, default_value());
            let after = StoreModel { entries: self.entries, waiters: rest };
            StoreModel {
                entries: if after.watched(k) {
                    self.entries.insert(k, EntryModel { value: default_value(), deadline: None })
                } else {
                    self.entries.remove(k)
                },
                waiters: rest,
            }
        } else {
            self
        }
    }

    /// The long-polls answered when the timer fires for `k` at `now`.
    pub open spec fn expire_replies(self, k: Seq<char>, now: u64) -> Seq<ReplyModel> {
        if self.due(k, now) {
            replies_of(self.woken(k, default_value()), default_value())
        } else {
            Seq::empty()
        }
    }
}

/// Whether the value `v` of key `k` answers waiter `w`.
pub open spec fn wakes(k: Seq<char>, v: Seq<char>) -> spec_fn(WaiterModel) -> bool {
    |w: WaiterModel| w.key == k && w.last_seen != v
}

/// Whether waiter `w` stays blocked when key `k` takes the value `v`.
pub open spec fn stays(k: Seq<char>, v: Seq<char>) -> spec_fn(WaiterModel) -> bool {
    |w: WaiterModel| !(w.key == k && w.last_seen != v)
}

/// Each of `ws` answered with `v`.
pub open spec fn replies_of(ws: Seq<WaiterModel>, v: Seq<char>) -> Seq<ReplyModel> {
    ws.map_values(|w: WaiterModel| (w.id, v))
}

} // verus!
