//! The meaning of the top list and of each operation on it.
//!
//! The list is stored twice: by slot, and for each player the slot they hold.
//! Either side of an entry can expire on its own.
use crate::address::Address;
use crate::leaderboard::types::{DataKey, PlayerEntry, MAX_BUBBLE_STEPS, MAX_TOP_PLAYERS};
use crate::table::{find, Table};
use vstd::prelude::*;

verus! {

/// The top list as stored.
#[derive(Clone, Debug)]
pub struct TopList {
    pub count: Option<u32>,
    pub seq_counter: Option<u64>,
    pub min_points: Option<u64>,
    pub min_slot: Option<u32>,
    /// The player in each slot.
    pub at: Table<u32, PlayerEntry>,
    /// The slot of each player.
    pub slot: Table<Address, u32>,
}

/// The meaning of [`TopList`].
#[verifier::ext_equal]
pub struct Top {
    pub count: Option<u32>,
    pub seq_counter: Option<u64>,
    pub min_points: Option<u64>,
    pub min_slot: Option<u32>,
    pub at: Map<u32, PlayerEntry>,
    pub slot: Map<Address, u32>,
}

impl View for TopList {
    type V = Top;

    open spec fn view(&self) -> Top {
        Top {
            count: self.count,
            seq_counter: self.seq_counter,
            min_points: self.min_points,
            min_slot: self.min_slot,
            at: self.at@,
            slot: self.slot@,
        }
    }
}

/// Of two listed players the one to leave first: the lower score in epoch
/// `now`, or among equal scores the one who has been listed longer.
pub open spec fn weaker(x: PlayerEntry, y: PlayerEntry, now: u32) -> bool {
    ||| x.points_at(now) < y.points_at(now)
    ||| x.points_at(now) == y.points_at(now) && x.seq < y.seq
}

/// The players found in the first `n` slots, in slot order.
pub open spec fn found(at: Map<u32, PlayerEntry>, n: nat) -> Seq<PlayerEntry>
    decreases n,
{
    if n == 0 {
        Seq::empty()
    } else {
        let before = found(at, (n - 1) as nat);
        match find(at, (n - 1) as u32) {
            Some(e) => before.push(e),
            None => before,
        }
    }
}

/// The slot of the first to leave among the first `n` slots, if any is taken.
pub open spec fn weakest(at: Map<u32, PlayerEntry>, n: nat, now: u32) -> Option<u32>
    decreases n,
{
    if n == 0 {
        None
    } else {
        let before = weakest(at, (n - 1) as nat, now);
        match (find(at, (n - 1) as u32), before) {
            (None, _) => before,
            (Some(_), None) => Some((n - 1) as u32),
            (Some(e), Some(m)) => if weaker(e, at[m], now) {
                Some((n - 1) as u32)
            } else {
                before
            },
        }
    }
}

/// How many of the first `n` slots hold a score above `mine`.
pub open spec fn above(at: Map<u32, PlayerEntry>, n: nat, now: u32, mine: u64) -> nat
    decreases n,
{
    if n == 0 {
        0
    } else {
        above(at, (n - 1) as nat, now, mine) + (match find(at, (n - 1) as u32) {
            Some(e) => if e.points_at(now) > mine {
                1nat
            } else {
                0nat
            },
            None => 0nat,
        })
    }
}

/// Slots numbered along a dense list.
pub open spec fn slots(list: Seq<PlayerEntry>) -> Map<u32, PlayerEntry> {
    Map::new(|i: u32| (i as int) < list.len(), |i: u32| list[i as int])
}

/// `slot` after each player of a dense list is noted at their place in it.
pub open spec fn noted(slot: Map<Address, u32>, list: Seq<PlayerEntry>) -> Map<Address, u32>
    decreases list.len(),
{
    if list.len() == 0 {
        slot
    } else {
        noted(slot, list.drop_last()).insert(list.last().address, (list.len() - 1) as u32)
    }
}

/// Both entries of a listed player.
pub open spec fn pair(slot: u32, address: Address) -> Set<DataKey> {
    set![DataKey::TopPlayerAt(slot), DataKey::TopPlayerSlot(address)]
}

/// Both entries of every player of a dense list.
pub open spec fn pairs(list: Seq<PlayerEntry>) -> Set<DataKey>
    decreases list.len(),
{
    if list.len() == 0 {
        Set::empty()
    } else {
        pairs(list.drop_last()).union(
            pair((list.len() - 1) as u32, list.last().address),
        )
    }
}

impl Top {
    /// Nothing is stored.
    pub open spec fn blank() -> Top {
        Top {
            count: None,
            seq_counter: None,
            min_points: None,
            min_slot: None,
            at: Map::empty(),
            slot: Map::empty(),
        }
    }

    pub open spec fn len(self) -> u32 {
        self.count.unwrap_or(0)
    }

    pub open spec fn next(self) -> u64 {
        self.seq_counter.unwrap_or(0)
    }

    pub open spec fn least_slot(self) -> u32 {
        self.min_slot.unwrap_or(0)
    }

    /// The player holds this slot.
    pub open spec fn holds(self, user: Address, slot: u32) -> bool {
        self.at.dom().contains(slot) && self.at[slot].address == user
    }

    pub open spec fn listed(self, user: Address) -> bool {
        exists|slot: u32| self.holds(user, slot)
    }

    /// The slot holds this very entry.
    pub open spec fn sits(self, e: PlayerEntry, slot: u32) -> bool {
        self.at.dom().contains(slot) && self.at[slot] == e
    }

    /// The list holds this very entry.
    pub open spec fn has(self, e: PlayerEntry) -> bool {
        exists|slot: u32| self.sits(e, slot)
    }

    /// Every listed player is noted at the slot they hold.
    pub open spec fn all_noted(self) -> bool {
        forall|i: u32| #[trigger]
            self.at.dom().contains(i) ==> find(self.slot, self.at[i].address) == Some(i)
    }

    /// The slot that the player holds, if any.
    pub open spec fn place(self, user: Address) -> Option<u32> {
        if self.listed(user) {
            Some(choose|slot: u32| self.holds(user, slot))
        } else {
            None
        }
    }

    /// The list is bounded, nobody is in it twice, a noted slot of a listed
    /// player is the one they hold, and every entry has a sequence number of
    /// its own that was handed out.
    pub open spec fn wf(self) -> bool {
        &&& self.len() <= MAX_TOP_PLAYERS
        &&& forall|i: u32| #[trigger] self.at.dom().contains(i) ==> i < self.len()
        &&& forall|i: u32, j: u32| #[trigger]
            self.at.dom().contains(i) && #[trigger] self.at.dom().contains(j)
                && self.at[i].address == self.at[j].address ==> i == j
        &&& forall|i: u32| #[trigger]
            self.at.dom().contains(i) && self.slot.dom().contains(self.at[i].address)
                ==> self.slot[self.at[i].address] == i
        &&& forall|i: u32| #[trigger] self.at.dom().contains(i) ==> self.at[i].seq < self.next()
        &&& forall|i: u32, j: u32| #[trigger]
            self.at.dom().contains(i) && #[trigger] self.at.dom().contains(j)
                && self.at[i].seq == self.at[j].seq ==> i == j
    }

    /// No slot in use is missing.
    pub open spec fn dense(self) -> bool {
        forall|i: u32| i < self.len() ==> #[trigger] self.at.dom().contains(i)
    }

    /// The listed players in slot order.
    pub open spec fn list(self) -> Seq<PlayerEntry> {
        found(self.at, self.len() as nat)
    }

    /// An entry is put into a slot and noted for its player.
    pub open spec fn put(self, slot: u32, entry: PlayerEntry) -> Top {
        Top {
            at: self.at.insert(slot, entry),
            slot: self.slot.insert(entry.address, slot),
            ..self
        }
    }

    /// A slot is emptied on both sides.
    pub open spec fn cleared(self, slot: u32) -> Top {
        Top {
            at: self.at.remove(slot),
            slot: match find(self.at, slot) {
                Some(e) => self.slot.remove(e.address),
                None => self.slot,
            },
            ..self
        }
    }

    /// Looking a player up corrects the slot noted for them.
    pub open spec fn looked_up(self, user: Address) -> Top {
        Top {
            slot: match self.place(user) {
                Some(i) => self.slot.insert(user, i),
                None => self.slot.remove(user),
            },
            ..self
        }
    }

    /// The entries that a lookup renews: those it had to restore.
    pub open spec fn looked_up_renews(self, user: Address) -> Set<DataKey> {
        match self.place(user) {
            Some(i) => if self.slot.dom().contains(user) {
                Set::empty()
            } else {
                pair(i, user)
            },
            None => Set::empty(),
        }
    }

    /// The note of who leaves first is brought up to date.
    pub open spec fn with_min(self, now: u32) -> Top {
        if self.len() == 0 {
            Top { min_points: Some(0), min_slot: Some(0), ..self }
        } else {
            match weakest(self.at, self.len() as nat, now) {
                Some(m) => Top {
                    min_points: Some(self.at[m].points_at(now)),
                    min_slot: Some(m),
                    ..self
                },
                None => self,
            }
        }
    }

    /// Missing slots are closed up and everybody's slot is noted anew.
    pub open spec fn repaired(self, now: u32) -> Top {
        let list = self.list();
        Top {
            count: Some(list.len() as u32),
            at: slots(list),
            slot: noted(self.slot, list),
            ..self
        }.with_min(now)
    }

    pub open spec fn consistent(self, now: u32) -> Top {
        if self.dense() {
            self
        } else {
            self.repaired(now)
        }
    }

    /// The players in this slot and the one before it change places.
    pub open spec fn swapped(self, slot: u32) -> Top {
        let up = self.at[slot];
        let down = self.at[(slot - 1) as u32];
        Top {
            at: self.at.insert((slot - 1) as u32, up).insert(slot, down),
            slot: self.slot.insert(up.address, (slot - 1) as u32).insert(down.address, slot),
            ..self
        }
    }

    /// The player in `slot` moves up past weaker neighbours, at most `steps`
    /// of them.
    pub open spec fn risen(self, slot: u32, steps: nat, now: u32) -> Top
        decreases steps,
    {
        if slot > 0 && steps > 0 && self.at.dom().contains((slot - 1) as u32) && self.at[(slot
            - 1) as u32].points_at(now) < self.at[slot].points_at(now) {
            self.swapped(slot).risen((slot - 1) as u32, (steps - 1) as nat, now)
        } else {
            self
        }
    }

    /// A new entry for `user`, numbered after all others.
    pub open spec fn newcomer(self, user: Address, points: u64, now: u32) -> PlayerEntry {
        PlayerEntry { address: user, points, epoch: now, seq: self.next() }
    }

    /// What an unlisted player with `points` does to a full list: nothing if
    /// everyone is stronger, otherwise the first to leave makes room.
    pub open spec fn challenged(self, user: Address, points: u64, now: u32) -> Top {
        let t = Top { slot: self.slot.remove(user), ..self }.with_min(now);
        let m = t.least_slot();
        if points < t.at[m].points_at(now) {
            t
        } else {
            Top {
                seq_counter: Some((t.next() + 1) as u64),
                slot: t.slot.remove(t.at[m].address),
                ..t
            }.put(m, t.newcomer(user, points, now)).risen(
                m,
                MAX_BUBBLE_STEPS as nat,
                now,
            ).with_min(now)
        }
    }

    /// An unlisted player with `points` joins a list that has room.
    pub open spec fn joined(self, user: Address, points: u64, now: u32) -> Top {
        let n = self.len();
        let t = Top {
            count: Some((n + 1) as u32),
            seq_counter: Some((self.next() + 1) as u64),
            ..self
        }.put(n, self.newcomer(user, points, now)).risen(n, MAX_BUBBLE_STEPS as nat, now);
        if n + 1 == MAX_TOP_PLAYERS {
            t.with_min(now)
        } else {
            t
        }
    }

    /// The list after the score of `user` became `points` in epoch `now`.
    pub open spec fn updated(self, user: Address, points: u64, now: u32) -> Top {
        let t = self.consistent(now);
        match t.place(user) {
            Some(i) => t.put(
                i,
                PlayerEntry { points, epoch: now, ..t.at[i] },
            ).risen(i, MAX_BUBBLE_STEPS as nat, now).with_min(now),
            None => if t.len() < MAX_TOP_PLAYERS {
                t.joined(user, points, now)
            } else {
                t.challenged(user, points, now)
            },
        }
    }

    /// The slot whose entries an update writes for `user`, if any.
    pub open spec fn updated_slot(self, user: Address, points: u64, now: u32) -> Option<u32> {
        let t = self.consistent(now);
        match t.place(user) {
            Some(i) => Some(i),
            None => if t.len() < MAX_TOP_PLAYERS {
                Some(t.len())
            } else {
                let m = t.with_min(now).least_slot();
                if points < t.at[m].points_at(now) {
                    None
                } else {
                    Some(m)
                }
            },
        }
    }

    /// The entries that an update renews.
    pub open spec fn updated_renews(self, user: Address, points: u64, now: u32) -> Set<DataKey> {
        let own = match self.updated_slot(user, points, now) {
            Some(i) => pair(i, user),
            None => Set::empty(),
        };
        if self.dense() {
            own
        } else {
            pairs(self.list()).union(own)
        }
    }

    /// An update that lists somebody new has a sequence number left to give.
    pub open spec fn can_update(self, user: Address, points: u64, now: u32) -> bool {
        let t = self.consistent(now);
        t.place(user) is None && self.updated_slot(user, points, now) is Some ==> t.next()
            < u64::MAX
    }

    /// The list after the score of a listed player fell to `points`.
    pub open spec fn lowered(self, user: Address, points: u64, now: u32) -> Top {
        match self.place(user) {
            Some(i) => self.put(
                i,
                PlayerEntry { points, epoch: now, ..self.at[i] },
            ).with_min(now),
            None => self.looked_up(user),
        }
    }

    /// The list without a player.
    pub open spec fn dropped(self, user: Address, now: u32) -> Top {
        match self.place(user) {
            Some(i) => self.looked_up(user).cleared(i).repaired(now),
            None => self.looked_up(user),
        }
    }
}

} // verus!
