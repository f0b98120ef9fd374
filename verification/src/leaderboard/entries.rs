//! What scoring does to the entries of the top list, everybody's and one's own.
use crate::leaderboard::top_model::{weakest, Top};
use crate::leaderboard::top_proofs::{
    lemma_forget, lemma_found, lemma_found_reaches, lemma_noted, lemma_put_behind,
    lemma_put_in_place, lemma_put_instead, lemma_repaired, lemma_risen, lemma_swapped,
    lemma_updated, lemma_weakest_taken, lemma_with_min,
};
use crate::address::Address;
use crate::leaderboard::types::{PlayerEntry, MAX_BUBBLE_STEPS, MAX_TOP_PLAYERS};
use crate::table::find;
use vstd::prelude::*;

verus! {

proof fn lemma_same_at_same_entries(t: Top, u: Top, e: PlayerEntry)
    requires
        t.at == u.at,
    ensures
        t.has(e) == u.has(e),
{
    if t.has(e) {
        let i = choose|i: u32| t.sits(e, i);
        assert(u.sits(e, i));
    }
    if u.has(e) {
        let i = choose|i: u32| u.sits(e, i);
        assert(t.sits(e, i));
    }
}

proof fn lemma_swapped_entries(t: Top, slot: u32, e: PlayerEntry)
    requires
        t.wf(),
        slot > 0,
        t.at.dom().contains(slot),
        t.at.dom().contains((slot - 1) as u32),
    ensures
        t.swapped(slot).has(e) == t.has(e),
        t.all_noted() ==> t.swapped(slot).all_noted(),
{
    let p = (slot - 1) as u32;
    let u = t.swapped(slot);
    if t.has(e) {
        let i = choose|i: u32| t.sits(e, i);
        assert(u.sits(
            e,
            if i == slot {
                p
            } else if i == p {
                slot
            } else {
                i
            },
        ));
    }
    if u.has(e) {
        let i = choose|i: u32| u.sits(e, i);
        assert(t.sits(
            e,
            if i == slot {
                p
            } else if i == p {
                slot
            } else {
                i
            },
        ));
    }
    if t.all_noted() {
        assert(t.at[slot].address != t.at[p].address);
        assert forall|i: u32| #[trigger] u.at.dom().contains(i) implies find(
            u.slot,
            u.at[i].address,
        ) == Some(i) by {
            assert(t.at.dom().contains(i));
            if i != slot && i != p {
                assert(t.at[i].address != t.at[slot].address);
                assert(t.at[i].address != t.at[p].address);
            }
        }
    }
}

proof fn lemma_risen_entries(t: Top, slot: u32, steps: nat, now: u32, e: PlayerEntry)
    requires
        t.wf(),
        t.at.dom().contains(slot),
    ensures
        t.risen(slot, steps, now).has(e) == t.has(e),
        t.all_noted() ==> t.risen(slot, steps, now).all_noted(),
    decreases steps,
{
    if slot > 0 && steps > 0 && t.at.dom().contains((slot - 1) as u32) && t.at[(slot
        - 1) as u32].points_at(now) < t.at[slot].points_at(now) {
        lemma_swapped_entries(t, slot, e);
        lemma_swapped(t, slot);
        lemma_risen_entries(t.swapped(slot), (slot - 1) as u32, (steps - 1) as nat, now, e);
    }
}

/// A player who was written to a slot, moved up, and the weakest noted anew.
proof fn lemma_settled_entries(p: Top, slot: u32, now: u32, e: PlayerEntry)
    requires
        p.wf(),
        p.at.dom().contains(slot),
    ensures
        ({
            let r = p.risen(slot, MAX_BUBBLE_STEPS as nat, now);
            &&& r.has(e) == p.has(e)
            &&& r.with_min(now).has(e) == p.has(e)
            &&& r.len() == p.len()
            &&& r.with_min(now).len() == p.len()
            &&& p.all_noted() ==> r.all_noted() && r.with_min(now).all_noted()
        }),
{
    let r = p.risen(slot, MAX_BUBBLE_STEPS as nat, now);
    lemma_risen_entries(p, slot, MAX_BUBBLE_STEPS as nat, now, e);
    lemma_risen(p, slot, MAX_BUBBLE_STEPS as nat, now);
    lemma_with_min(r, now);
    lemma_same_at_same_entries(r, r.with_min(now), e);
}

/// A write to a slot affects no entry but the one it held.
proof fn lemma_put_entries(t: Top, slot: u32, entry: PlayerEntry, e: PlayerEntry)
    requires
        t.wf(),
    ensures
        t.put(slot, entry).has(entry),
        e.address != entry.address ==> t.put(slot, entry).has(e) == (t.has(e) && !t.sits(e, slot)),
{
    let u = t.put(slot, entry);
    assert(u.sits(entry, slot));
    if e.address != entry.address {
        if t.has(e) && !t.sits(e, slot) {
            let i = choose|i: u32| t.sits(e, i);
            assert(u.sits(e, i));
        }
        if u.has(e) {
            let i = choose|i: u32| u.sits(e, i);
            assert(t.sits(e, i));
            if t.sits(e, slot) {
                assert(t.at.dom().contains(i) && t.at.dom().contains(slot));
            }
        }
    }
}

/// Closing gaps keeps every entry and notes everybody.
pub proof fn lemma_repaired_entries(t: Top, now: u32, e: PlayerEntry)
    requires
        t.wf(),
    ensures
        t.repaired(now).has(e) == t.has(e),
        t.repaired(now).all_noted(),
{
    let r = t.repaired(now);
    let list = t.list();
    lemma_repaired(t, now);
    lemma_found(t, t.len() as nat);
    if t.has(e) {
        let i = choose|i: u32| t.sits(e, i);
        assert(t.at.dom().contains(i));
        let k = lemma_found_reaches(t, t.len() as nat, i);
        assert(r.sits(e, k as u32));
    }
    if r.has(e) {
        let k = choose|k: u32| r.sits(e, k);
        let o = choose|o: u32|
            o < t.len() && t.at.dom().contains(o) && t.at[o] == list[k as int];
        assert(t.sits(e, o));
    }
    assert forall|i: u32| #[trigger] r.at.dom().contains(i) implies find(r.slot, r.at[i].address)
        == Some(i) by {
        lemma_noted(t.slot, list, i as int);
    }
}

/// The entry that somebody holds and their listing say the same.
pub proof fn lemma_has_is_listed(t: Top, e: PlayerEntry)
    ensures
        t.has(e) ==> t.listed(e.address),
{
    if t.has(e) {
        let i = choose|i: u32| t.sits(e, i);
        assert(t.holds(e.address, i));
    }
}

/// Scoring rewrites the player's own entry and leaves every other as it was,
/// score, epoch and order of insertion included, except that the one who leaves
/// first makes room when the list is full and the newcomer is no weaker. A
/// listed player keeps their order of insertion and nobody is added; a newcomer
/// is counted and numbered last. The list stays bounded, without repeats and
/// without gaps, and once everybody is noted at the slot they hold, that stays
/// so.
pub proof fn law_scoring_touches_one_entry(
    t: Top,
    user: Address,
    points: u64,
    now: u32,
    e: PlayerEntry,
)
    requires
        t.wf(),
        t.can_update(user, points, now),
    ensures
        ({
            let c = t.consistent(now);
            let first_out = c.at[weakest(c.at, c.len() as nat, now)->0];
            let room = c.len() < MAX_TOP_PLAYERS;
            let wins = points >= first_out.points_at(now);
            let after = t.updated(user, points, now);
            &&& after.wf()
            &&& after.dense()
            &&& e.address != user ==> after.has(e) == (t.has(e) && (t.listed(user) || room || !wins
                || e != first_out))
            &&& e.address == user && t.has(e) ==> after.has(
                PlayerEntry { points, epoch: now, ..e },
            )
            &&& !t.listed(user) ==> after.listed(user) == (room || wins)
            &&& !t.listed(user) && (room || wins) ==> after.has(t.newcomer(user, points, now))
            &&& after.len() == if !t.listed(user) && room {
                c.len() + 1
            } else {
                c.len() as int
            }
            &&& t.all_noted() || !t.dense() ==> after.all_noted()
        }),
{
    let c = t.consistent(now);
    lemma_updated(t, user, points, now);
    crate::leaderboard::laws::law_only_the_weakest_makes_room(
        t,
        user,
        points,
        now,
        Address { id: if user.id == 0 { 1 } else { 0 } },
    );
    if !t.dense() {
        lemma_repaired(t, now);
        lemma_repaired_entries(t, now, e);
    }
    assert(c.wf() && c.dense() && c.has(e) == t.has(e) && c.listed(user) == t.listed(user));
    assert(c.next() == t.next());
    lemma_has_is_listed(t, e);
    match c.place(user) {
        Some(i) => lemma_listed_entries(c, user, points, now, i, e),
        None => if c.len() < MAX_TOP_PLAYERS {
            lemma_joined_entries(c, user, points, now, e);
        } else {
            lemma_challenged_entries(c, user, points, now, e);
        },
    }
}

/// A listed player's entry is rewritten.
proof fn lemma_listed_entries(
    c: Top,
    user: Address,
    points: u64,
    now: u32,
    i: u32,
    e: PlayerEntry,
)
    requires
        c.wf(),
        c.place(user) == Some(i),
    ensures
        ({
            let after = c.put(
                i,
                PlayerEntry { points, epoch: now, ..c.at[i] },
            ).risen(i, MAX_BUBBLE_STEPS as nat, now).with_min(now);
            &&& after.len() == c.len()
            &&& e.address != user ==> after.has(e) == c.has(e)
            &&& e.address == user && c.has(e) ==> after.has(
                PlayerEntry { points, epoch: now, ..e },
            )
            &&& c.all_noted() ==> after.all_noted()
        }),
{
    assert(c.holds(user, i));
    let own = PlayerEntry { points, epoch: now, ..c.at[i] };
    lemma_put_in_place(c, i, own);
    lemma_put_entries(c, i, own, e);
    let p = c.put(i, own);
    assert(p.at.dom().contains(i));
    lemma_settled_entries(p, i, now, e);
    lemma_settled_entries(p, i, now, own);
    if e.address == user && c.has(e) {
        let j = choose|j: u32| c.sits(e, j);
        assert(c.at.dom().contains(i) && c.at.dom().contains(j));
    }
    if c.all_noted() {
        assert forall|j: u32| #[trigger] p.at.dom().contains(j) implies find(
            p.slot,
            p.at[j].address,
        ) == Some(j) by {
            assert(c.at.dom().contains(j) && c.at.dom().contains(i));
        }
    }
}

/// A newcomer joins a list with room.
proof fn lemma_joined_entries(c: Top, user: Address, points: u64, now: u32, e: PlayerEntry)
    requires
        c.wf(),
        c.len() < MAX_TOP_PLAYERS,
        !c.listed(user),
        c.next() < u64::MAX,
    ensures
        ({
            let after = c.joined(user, points, now);
            &&& after.len() == c.len() + 1
            &&& e.address != user ==> after.has(e) == c.has(e)
            &&& after.has(c.newcomer(user, points, now))
            &&& c.all_noted() ==> after.all_noted()
        }),
{
    let n = c.len();
    let own = c.newcomer(user, points, now);
    lemma_put_behind(c, own);
    let grown = Top {
        count: Some((n + 1) as u32),
        seq_counter: Some((c.next() + 1) as u64),
        ..c
    };
    let p = grown.put(n, own);
    lemma_put_entries(c, n, own, e);
    if c.sits(e, n) {
        assert(c.at.dom().contains(n));
    }
    lemma_same_at_same_entries(c.put(n, own), p, e);
    lemma_same_at_same_entries(c.put(n, own), p, own);
    assert(p.at.dom().contains(n));
    lemma_settled_entries(p, n, now, e);
    lemma_settled_entries(p, n, now, own);
    if c.all_noted() {
        assert forall|j: u32| #[trigger] p.at.dom().contains(j) implies find(
            p.slot,
            p.at[j].address,
        ) == Some(j) by {
            if j != n {
                assert(c.at.dom().contains(j));
                if c.at[j].address == user {
                    assert(c.holds(user, j));
                }
            }
        }
    }
}

/// A newcomer challenges a full list.
proof fn lemma_challenged_entries(c: Top, user: Address, points: u64, now: u32, e: PlayerEntry)
    requires
        c.wf(),
        c.dense(),
        c.len() == MAX_TOP_PLAYERS,
        !c.listed(user),
        points >= c.at[c.with_min(now).least_slot()].points_at(now) ==> c.next() < u64::MAX,
    ensures
        ({
            let first_out = c.at[weakest(c.at, c.len() as nat, now)->0];
            let wins = points >= first_out.points_at(now);
            let after = c.challenged(user, points, now);
            &&& after.len() == c.len()
            &&& e.address != user ==> after.has(e) == (c.has(e) && (!wins || e != first_out))
            &&& wins ==> after.has(c.newcomer(user, points, now))
            &&& c.all_noted() ==> after.all_noted()
        }),
{
    let f = Top { slot: c.slot.remove(user), ..c };
    lemma_forget(c, user);
    let g = f.with_min(now);
    lemma_with_min(f, now);
    lemma_with_min(c, now);
    lemma_same_at_same_entries(c, g, e);
    lemma_weakest_taken(c.at, c.len() as nat, now);
    assert(c.at.dom().contains(0u32));
    let m = g.least_slot();
    assert(Some(m) == weakest(c.at, c.len() as nat, now));
    assert forall|j: u32| c.at.dom().contains(j) implies c.at[j].address != user by {
        if c.at[j].address == user {
            assert(c.holds(user, j));
        }
    }
    assert forall|i: u32| g.holds(user, i) implies false by {
        assert(c.holds(user, i));
    }
    if points >= g.at[m].points_at(now) {
        let own = g.newcomer(user, points, now);
        lemma_put_instead(g, m, own);
        let base = Top {
            seq_counter: Some((g.next() + 1) as u64),
            slot: g.slot.remove(g.at[m].address),
            ..g
        };
        let p = base.put(m, own);
        lemma_put_entries(g, m, own, e);
        lemma_same_at_same_entries(g.put(m, own), p, e);
        lemma_same_at_same_entries(g.put(m, own), p, own);
        assert(p.at.dom().contains(m));
        lemma_settled_entries(p, m, now, e);
        lemma_settled_entries(p, m, now, own);
        if c.has(e) && e == c.at[m] {
            assert(g.sits(e, m));
        }
        if c.all_noted() {
            assert forall|j: u32| #[trigger] p.at.dom().contains(j) implies find(
                p.slot,
                p.at[j].address,
            ) == Some(j) by {
                assert(c.at.dom().contains(j) && c.at.dom().contains(m));
            }
        }
    } else if c.all_noted() {
        assert forall|j: u32| #[trigger] g.at.dom().contains(j) implies find(
            g.slot,
            g.at[j].address,
        ) == Some(j) by {
            assert(c.at.dom().contains(j));
        }
    }
}

} // verus!
