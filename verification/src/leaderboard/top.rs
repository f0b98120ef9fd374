//! The top list in storage.
use crate::address::Address;
use crate::env::Env;
use crate::leaderboard::decay::{current_epoch, entry_points_now, epoch_of};
use crate::leaderboard::top_model::{
    above, found, noted, pair, pairs, slots, weakest, Top, TopList,
};
use crate::leaderboard::top_proofs::{
    lemma_cleared, lemma_looked_up, lemma_place, lemma_put_in_place, lemma_repaired, lemma_risen,
    lemma_updated, lemma_weakest_taken, lemma_with_min,
};
use crate::leaderboard::types::{DataKey, PlayerEntry, MAX_BUBBLE_STEPS, MAX_TOP_PLAYERS};
use crate::table::{find, Table};
use vstd::prelude::*;

verus! {

impl TopList {
    pub fn new() -> (t: Self)
        ensures
            t@ == Top::blank(),
    {
        TopList {
            count: None,
            seq_counter: None,
            min_points: None,
            min_slot: None,
            at: Table::new(),
            slot: Table::new(),
        }
    }

    pub fn top_count(&self) -> (n: u32)
        ensures
            n == self@.len(),
    {
        self.count.unwrap_or(0)
    }

    pub fn forward_entry(&self, slot: u32) -> (e: Option<PlayerEntry>)
        ensures
            e == find(self@.at, slot),
    {
        self.at.find(slot)
    }

    /// Write both entries of a listed player together and keep both alive.
    fn set_top_slot(&mut self, env: &mut Env<DataKey>, slot: u32, entry: PlayerEntry)
        ensures
            final(self)@ == old(self)@.put(slot, entry),
            final(env).asks(*old(env), Seq::empty(), pair(slot, entry.address), false),
    {
        self.at.set(slot, entry);
        env.renew(DataKey::TopPlayerAt(slot));
        self.slot.set(entry.address, slot);
        env.renew(DataKey::TopPlayerSlot(entry.address));
    }

    /// Remove both entries of a slot.
    fn clear_top_slot(&mut self, slot: u32)
        ensures
            final(self)@ == old(self)@.cleared(slot),
    {
        if let Some(e) = self.forward_entry(slot) {
            self.slot.remove(e.address);
        }
        self.at.remove(slot);
    }

    /// The slot a player holds. A noted slot that they do not hold is
    /// forgotten, and one that was lost is found again by a search, so that
    /// nobody is listed twice.
    pub fn resolved_slot(&mut self, env: &mut Env<DataKey>, user: Address) -> (r: Option<u32>)
        requires
            old(self)@.wf(),
        ensures
            r == old(self)@.place(user),
            final(self)@ == old(self)@.looked_up(user),
            final(self)@.wf(),
            final(env).asks(
                *old(env),
                Seq::empty(),
                old(self)@.looked_up_renews(user),
                false,
            ),
    {
        let ghost t = self@;
        proof {
            lemma_looked_up(t, user);
        }
        if let Some(s) = self.slot.find(user) {
            if let Some(e) = self.forward_entry(s) {
                if e.address == user {
                    proof {
                        assert(t.holds(user, s));
                        lemma_place(t, user, s);
                        assert(t.slot.insert(user, s) =~= t.slot);
                    }
                    return Some(s);
                }
            }
            self.slot.remove(user);
        }
        proof {
            assert forall|i: u32| t.holds(user, i) implies !t.slot.dom().contains(user) by {
                assert(t.at.dom().contains(i));
            }
            assert(self@.slot =~= t.slot.remove(user));
        }
        let count: u32 = self.top_count();
        let mut i: u32 = 0;
        while i < count
            invariant
                i <= count,
                count == t.len(),
                t.wf(),
                self@.at == t.at,
                self@.slot == t.slot.remove(user),
                self@ == (Top { slot: t.slot.remove(user), ..t }),
                *env == *old(env),
                t == old(self)@,
                t.looked_up(user).wf(),
                forall|j: u32| t.holds(user, j) ==> !t.slot.dom().contains(user),
                forall|j: u32| j < i ==> !#[trigger] t.holds(user, j),
            decreases count - i,
        {
            if let Some(e) = self.forward_entry(i) {
                if e.address == user {
                    proof {
                        assert(t.holds(user, i));
                        lemma_place(t, user, i);
                    }
                    self.set_top_slot(env, i, e);
                    proof {
                        assert(t.at.insert(i, e) =~= t.at);
                        assert(self@.slot =~= t.slot.insert(user, i));
                    }
                    return Some(i);
                }
            }
            i = i + 1;
        }
        proof {
            assert forall|j: u32| !t.holds(user, j) by {
                if t.holds(user, j) {
                    assert(t.at.dom().contains(j));
                }
            }
        }
        None
    }

    /// Whether a player is in the list, without correcting anything.
    pub fn is_listed(&self, user: Address) -> (b: bool)
        requires
            self@.wf(),
        ensures
            b == self@.listed(user),
    {
        let count: u32 = self.top_count();
        let mut i: u32 = 0;
        while i < count
            invariant
                i <= count,
                count == self@.len(),
                self@.wf(),
                forall|j: u32| j < i ==> !#[trigger] self@.holds(user, j),
            decreases count - i,
        {
            if let Some(e) = self.forward_entry(i) {
                if e.address == user {
                    assert(self@.holds(user, i));
                    return true;
                }
            }
            i = i + 1;
        }
        assert forall|j: u32| !self@.holds(user, j) by {
            if self@.holds(user, j) {
                assert(self@.at.dom().contains(j));
            }
        }
        false
    }

    /// Like `resolved_slot`, with the entry.
    pub fn top_slot_entry(&mut self, env: &mut Env<DataKey>, user: Address) -> (r: Option<
        (u32, PlayerEntry),
    >)
        requires
            old(self)@.wf(),
        ensures
            r == (match old(self)@.place(user) {
                Some(i) => Some((i, old(self)@.at[i])),
                None => None,
            }),
            r matches Some((i, _)) ==> old(self)@.holds(user, i),
            final(self)@ == old(self)@.looked_up(user),
            final(self)@.wf(),
            final(env).asks(
                *old(env),
                Seq::empty(),
                old(self)@.looked_up_renews(user),
                false,
            ),
    {
        match self.resolved_slot(env, user) {
            Some(i) => {
                assert(old(self)@.holds(user, i));
                match self.forward_entry(i) {
                    Some(e) => Some((i, e)),
                    None => None,
                }
            },
            None => None,
        }
    }

    /// Note who is the first to leave.
    fn recompute_min(&mut self, now: u32)
        requires
            old(self)@.wf(),
        ensures
            final(self)@ == old(self)@.with_min(now),
    {
        let count: u32 = self.top_count();
        if count == 0 {
            self.min_points = Some(0);
            self.min_slot = Some(0);
            return;
        }
        let mut min_slot: u32 = 0;
        let mut min_points: u64 = u64::MAX;
        let mut min_seq: u64 = u64::MAX;
        let mut found_one: bool = false;
        let mut i: u32 = 0;
        while i < count
            invariant
                i <= count,
                count == self@.len(),
                *self == *old(self),
                match weakest(self@.at, i as nat, now) {
                    Some(m) => {
                        &&& found_one
                        &&& min_slot == m
                        &&& self@.at.dom().contains(m)
                        &&& min_points == self@.at[m].points_at(now)
                        &&& min_seq == self@.at[m].seq
                    },
                    None => !found_one,
                },
            decreases count - i,
        {
            assert((i + 1 - 1) as u32 == i);
            if let Some(e) = self.forward_entry(i) {
                let pts: u64 = entry_points_now(&e, now);
                if !found_one || pts < min_points || (pts == min_points && e.seq < min_seq) {
                    min_points = pts;
                    min_slot = i;
                    min_seq = e.seq;
                    found_one = true;
                }
            }
            i = i + 1;
        }
        if found_one {
            self.min_points = Some(min_points);
            self.min_slot = Some(min_slot);
        }
    }

    /// Move the entry in `slot` up past weaker ones, on both sides of the
    /// list at once.
    fn bubble_up(&mut self, entry: PlayerEntry, slot: u32, now: u32)
        requires
            old(self)@.wf(),
            find(old(self)@.at, slot) == Some(entry),
        ensures
            final(self)@ == old(self)@.risen(slot, MAX_BUBBLE_STEPS as nat, now),
            final(self)@.wf(),
    {
        let mut at: u32 = slot;
        let mut steps: u32 = 0;
        let ghost t = self@;
        proof {
            lemma_risen(t, slot, MAX_BUBBLE_STEPS as nat, now);
        }
        while at > 0 && steps < MAX_BUBBLE_STEPS
            invariant
                steps <= MAX_BUBBLE_STEPS,
                find(self@.at, at) == Some(entry),
                self@.risen(at, (MAX_BUBBLE_STEPS - steps) as nat, now) == t.risen(
                    slot,
                    MAX_BUBBLE_STEPS as nat,
                    now,
                ),
            ensures
                self@ == t.risen(slot, MAX_BUBBLE_STEPS as nat, now),
            decreases MAX_BUBBLE_STEPS - steps,
        {
            match self.forward_entry(at - 1) {
                Some(prev) => {
                    if entry_points_now(&prev, now) < entry_points_now(&entry, now) {
                        let ghost before = self@;
                        self.at.set(at - 1, entry);
                        self.at.set(at, prev);
                        self.slot.set(entry.address, at - 1);
                        self.slot.set(prev.address, at);
                        assert(self@ == before.swapped(at));
                        at = at - 1;
                        steps = steps + 1;
                    } else {
                        break;
                    }
                },
                None => {
                    break;
                },
            }
        }
    }

    /// Close up missing slots, note everybody's slot anew and refresh the note
    /// of the weakest. Returns the number of players left.
    pub fn repair_top_index(&mut self, env: &mut Env<DataKey>) -> (n: u32)
        requires
            old(self)@.wf(),
        ensures
            final(self)@ == old(self)@.repaired(epoch_of(old(env).ledger.sequence)),
            final(self)@.wf(),
            final(self)@.dense(),
            n == final(self)@.len(),
            final(env).asks(*old(env), Seq::empty(), pairs(old(self)@.list()), true),
    {
        let now: u32 = current_epoch(env.ledger.sequence);
        let ghost t = self@;
        let count: u32 = self.top_count();
        let mut write: u32 = 0;
        let mut read: u32 = 0;
        while read < count
            invariant
                t.wf(),
                count == t.len(),
                write <= read <= count,
                write == found(t.at, read as nat).len(),
                self@.count == t.count,
                self@.seq_counter == t.seq_counter,
                self@.min_points == t.min_points,
                self@.min_slot == t.min_slot,
                self@.slot == noted(t.slot, found(t.at, read as nat)),
                forall|i: u32| #[trigger]
                    self@.at.dom().contains(i) == (i < write || read <= i
                        && t.at.dom().contains(i)),
                forall|i: u32| i < write ==> #[trigger] self@.at[i] == found(t.at, read as nat)[i as int],
                forall|i: u32| read <= i ==> #[trigger] self@.at[i] == t.at[i],
                env.asks(*old(env), Seq::empty(), pairs(found(t.at, read as nat)), false),
            decreases count - read,
        {
            let ghost before = found(t.at, read as nat);
            let ghost next = found(t.at, (read + 1) as nat);
            let ghost at0 = self@.at;
            assert(((read + 1) as nat - 1) as u32 == read);
            assert(at0.dom().contains(read) == t.at.dom().contains(read));
            if let Some(e) = self.forward_entry(read) {
                assert(at0[read] == t.at[read]);
                self.set_top_slot(env, write, e);
                if write != read {
                    self.at.remove(read);
                }
                proof {
                    assert(next =~= before.push(e));
                    assert(next.drop_last() =~= before);
                    assert(next.last() == e);
                    assert forall|i: u32| i < write implies #[trigger] self@.at[i]
                        == next[i as int] by {
                        assert(at0.dom().contains(i));
                        assert(self@.at[i] == at0[i]);
                    }
                }
                write = write + 1;
            } else {
                self.at.remove(read);
                assert(next =~= before);
            }
            proof {
                assert forall|i: u32| i < write implies #[trigger] self@.at[i]
                    == next[i as int] by {
                    if i < before.len() {
                        assert(self@.at[i] == at0[i]);
                    }
                }
                assert forall|i: u32| read < i implies #[trigger] self@.at[i] == t.at[i] by {
                    assert(self@.at[i] == at0[i]);
                }
                assert forall|i: u32| #[trigger]
                    self@.at.dom().contains(i) == (i < write || read + 1 <= i
                        && t.at.dom().contains(i)) by {
                    assert(at0.dom().contains(i) == (i < before.len() || read <= i
                        && t.at.dom().contains(i)));
                }
            }
            read = read + 1;
        }
        proof {
            let list = t.list();
            assert forall|i: u32| self@.at.dom().contains(i) implies (i as int) < list.len() by {
                if i >= write {
                    assert(t.at.dom().contains(i));
                }
            }
            assert(self@.at =~= slots(list));
            lemma_repaired(t, now);
        }
        self.count = Some(write);
        proof {
            lemma_unminned(t, self@);
        }
        self.recompute_min(now);
        env.renew_instance();
        write
    }

    /// If a slot in use is missing, close the list up.
    fn ensure_consistent(&mut self, env: &mut Env<DataKey>) -> (n: u32)
        requires
            old(self)@.wf(),
        ensures
            final(self)@ == old(self)@.consistent(epoch_of(old(env).ledger.sequence)),
            final(self)@.wf(),
            final(self)@.dense(),
            n == final(self)@.len(),
            final(env).asks(
                *old(env),
                Seq::empty(),
                if old(self)@.dense() {
                    Set::empty()
                } else {
                    pairs(old(self)@.list())
                },
                !old(self)@.dense(),
            ),
    {
        let count: u32 = self.top_count();
        let mut i: u32 = 0;
        while i < count
            invariant
                i <= count,
                count == self@.len(),
                self@.wf(),
                *self == *old(self),
                *env == *old(env),
                forall|j: u32| j < i ==> #[trigger] self@.at.dom().contains(j),
            decreases count - i,
        {
            if self.forward_entry(i).is_none() {
                return self.repair_top_index(env);
            }
            i = i + 1;
        }
        count
    }

    /// Hand out the next sequence number.
    fn next_seq(&mut self) -> (s: u64)
        requires
            old(self)@.next() < u64::MAX,
        ensures
            s == old(self)@.next(),
            final(self)@ == (Top { seq_counter: Some((s + 1) as u64), ..old(self)@ }),
    {
        let s: u64 = self.seq_counter.unwrap_or(0);
        self.seq_counter = Some(s + 1);
        s
    }

    /// Give a player the place that a changed score earns.
    ///
    /// A listed player is rewritten in place and moves up. Anyone else joins
    /// while there is room. On a full list the first to leave makes room for a
    /// newcomer who is at least as strong.
    #[verifier::rlimit(40)]
    pub fn update_top_players(&mut self, env: &mut Env<DataKey>, user: Address, new_points: u64)
        requires
            old(self)@.wf(),
            old(self)@.can_update(user, new_points, epoch_of(old(env).ledger.sequence)),
        ensures
            final(self)@ == old(self)@.updated(
                user,
                new_points,
                epoch_of(old(env).ledger.sequence),
            ),
            final(self)@.wf(),
            final(env).asks(
                *old(env),
                Seq::empty(),
                old(self)@.updated_renews(
                    user,
                    new_points,
                    epoch_of(old(env).ledger.sequence),
                ),
                !old(self)@.dense(),
            ),
    {
        let now: u32 = current_epoch(env.ledger.sequence);
        proof {
            lemma_updated(self@, user, new_points, now);
        }
        let count: u32 = self.ensure_consistent(env);
        let ghost c = self@;
        assert(c == old(self)@.consistent(now));
        if let Some((slot, found_entry)) = self.top_slot_entry(env, user) {
            let mut entry: PlayerEntry = found_entry;
            entry.points = new_points;
            entry.epoch = now;
            proof {
                lemma_put_in_place(c, slot, entry);
            }
            self.set_top_slot(env, slot, entry);
            assert(self@ == c.put(slot, entry));
            self.bubble_up(entry, slot, now);
            self.recompute_min(now);
            return;
        }
        assert(self@ == (Top { slot: c.slot.remove(user), ..c }));
        assert(forall|i: u32| !c.holds(user, i));
        if count < MAX_TOP_PLAYERS {
            let slot: u32 = count;
            let entry = PlayerEntry {
                address: user,
                points: new_points,
                epoch: now,
                seq: self.next_seq(),
            };
            self.set_top_slot(env, slot, entry);
            self.count = Some(slot + 1);
            proof {
                crate::leaderboard::top_proofs::lemma_put_behind(c, entry);
                assert(c.slot.remove(user).insert(user, slot) =~= c.slot.insert(user, slot));
                assert(self@ == (Top {
                    count: Some((slot + 1) as u32),
                    seq_counter: Some((c.next() + 1) as u64),
                    ..c
                }).put(slot, entry));
            }
            self.bubble_up(entry, slot, now);
            if slot + 1 == MAX_TOP_PLAYERS {
                self.recompute_min(now);
            }
            return;
        }
        let ghost f = self@;
        self.recompute_min(now);
        let ghost g = self@;
        proof {
            lemma_with_min(f, now);
            lemma_with_min(c, now);
            lemma_weakest_taken(c.at, c.len() as nat, now);
            assert(c.at.dom().contains(0u32));
        }
        let min_slot: u32 = self.min_slot.unwrap_or(0);
        assert(g.at.dom().contains(min_slot));
        if let Some(min_entry) = self.forward_entry(min_slot) {
            if new_points < entry_points_now(&min_entry, now) {
                return;
            }
            self.slot.remove(min_entry.address);
            let new_entry = PlayerEntry {
                address: user,
                points: new_points,
                epoch: now,
                seq: self.next_seq(),
            };
            proof {
                assert forall|i: u32| g.holds(user, i) implies false by {
                    assert(c.holds(user, i));
                }
                crate::leaderboard::top_proofs::lemma_put_instead(g, min_slot, new_entry);
            }
            self.set_top_slot(env, min_slot, new_entry);
            self.bubble_up(new_entry, min_slot, now);
            self.recompute_min(now);
        }
    }

    /// Rewrite the score of a player who lost points. Nobody is listed or
    /// unlisted by this.
    pub fn lower(&mut self, env: &mut Env<DataKey>, user: Address, new_points: u64)
        requires
            old(self)@.wf(),
        ensures
            final(self)@ == old(self)@.lowered(
                user,
                new_points,
                epoch_of(old(env).ledger.sequence),
            ),
            final(self)@.wf(),
            final(env).asks(
                *old(env),
                Seq::empty(),
                match old(self)@.place(user) {
                    Some(i) => pair(i, user),
                    None => Set::empty(),
                },
                false,
            ),
    {
        let now: u32 = current_epoch(env.ledger.sequence);
        let ghost t = self@;
        if let Some((slot, found_entry)) = self.top_slot_entry(env, user) {
            let mut entry: PlayerEntry = found_entry;
            entry.points = new_points;
            entry.epoch = now;
            proof {
                lemma_put_in_place(t, slot, entry);
                lemma_with_min(t.put(slot, entry), now);
            }
            self.set_top_slot(env, slot, entry);
            assert(self@ == t.put(slot, entry));
            self.recompute_min(now);
        }
    }

    /// Take a player off the list and close the gap.
    pub fn drop_slot(&mut self, env: &mut Env<DataKey>, slot: u32)
        requires
            old(self)@.wf(),
        ensures
            final(self)@ == old(self)@.cleared(slot).repaired(
                epoch_of(old(env).ledger.sequence),
            ),
            final(self)@.wf(),
            final(self)@.dense(),
            final(env).asks(
                *old(env),
                Seq::empty(),
                pairs(old(self)@.cleared(slot).list()),
                true,
            ),
    {
        proof {
            lemma_cleared(self@, slot);
        }
        self.clear_top_slot(slot);
        self.repair_top_index(env);
    }

    /// How many listed players have a score above `mine`.
    pub fn count_above(&self, now: u32, mine: u64) -> (n: u32)
        requires
            self@.wf(),
        ensures
            n == above(self@.at, self@.len() as nat, now, mine),
            n <= self@.len(),
    {
        let count: u32 = self.top_count();
        let mut n: u32 = 0;
        let mut i: u32 = 0;
        while i < count
            invariant
                n <= i <= count,
                count == self@.len(),
                n == above(self@.at, i as nat, now, mine),
            decreases count - i,
        {
            assert((i + 1 - 1) as u32 == i);
            if let Some(e) = self.forward_entry(i) {
                if entry_points_now(&e, now) > mine {
                    n = n + 1;
                }
            }
            i = i + 1;
        }
        n
    }
}

/// A list that was just closed up is well formed before its note of the
/// weakest is refreshed.
proof fn lemma_unminned(t: Top, u: Top)
    requires
        t.wf(),
        u == (Top {
            count: Some(t.list().len() as u32),
            at: slots(t.list()),
            slot: noted(t.slot, t.list()),
            ..t
        }),
    ensures
        u.wf(),
{
    lemma_repaired(t, 0);
    let r = t.repaired(0);
    assert forall|i: u32| #[trigger] u.at.dom().contains(i) implies r.at.dom().contains(i) by {}
    lemma_with_min_fields(u);
    assert forall|i: u32| #[trigger]
        u.at.dom().contains(i) && u.slot.dom().contains(u.at[i].address) implies u.slot[u.at[i].address]
        == i by {
        assert(r.at.dom().contains(i));
    }
}

proof fn lemma_with_min_fields(u: Top)
    ensures
        u.with_min(0).at == u.at,
        u.with_min(0).slot == u.slot,
        u.with_min(0).count == u.count,
        u.with_min(0).seq_counter == u.seq_counter,
{
}

} // verus!
