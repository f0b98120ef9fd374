//! Who stands where in the top list, said of the slots before and after.
use crate::address::Address;
use crate::leaderboard::entries::{lemma_has_is_listed, lemma_repaired_entries};
use crate::leaderboard::ranking::{page, ranking, standings};
use crate::leaderboard::state::LeaderboardState;
use crate::leaderboard::top_model::{above, found, noted, pairs, slots, weakest, Top};
use crate::leaderboard::top_proofs::{
    lemma_cleared, lemma_forget, lemma_found, lemma_found_reaches, lemma_looked_up, lemma_place,
    lemma_put_behind, lemma_put_in_place, lemma_put_instead, lemma_repaired, lemma_risen,
    lemma_swapped, lemma_weakest_leaves_first, lemma_weakest_taken, lemma_with_min,
};
use crate::leaderboard::types::{DataKey, PlayerEntry, MAX_BUBBLE_STEPS};
use crate::table::find;
use vstd::prelude::*;

verus! {

/// Whoever was in `slot` of `before` stands `k` slots further up in `after`: everybody
/// in between was weaker and is one slot further down, and nobody else moved.
pub open spec fn moved_up(
    before: Map<u32, PlayerEntry>,
    after: Map<u32, PlayerEntry>,
    slot: u32,
    k: nat,
    now: u32,
) -> bool {
    &&& k <= slot
    &&& find(after, (slot - k) as u32) == find(before, slot)
    &&& forall|i: u32|
        slot - k < i <= slot ==> #[trigger] find(after, i) == find(before, (i - 1) as u32)
    &&& forall|i: u32|
        slot - k <= i < slot ==> (#[trigger] before[i]).points_at(now) < before[slot].points_at(
            now,
        )
    &&& forall|i: u32|
        i < slot - k || i > slot ==> #[trigger] find(after, i) == find(before, i)
}

/// Whoever moves up stops at the top, behind somebody who is not weaker, or after
/// `steps` slots.
pub open spec fn came_to_rest(
    before: Map<u32, PlayerEntry>,
    slot: u32,
    k: nat,
    steps: nat,
    now: u32,
) -> bool {
    k == steps || k == slot || (find(before, (slot - k - 1) as u32) matches Some(e) ==> e.points_at(
        now,
    ) >= before[slot].points_at(now))
}

/// A player moves up past weaker neighbours and no others, one slot at a time and at
/// most `steps` of them; each of those moves down one slot.
pub proof fn law_risers_pass_weaker_neighbours(t: Top, slot: u32, steps: nat, now: u32) -> (k: nat)
    requires
        t.wf(),
        t.at.dom().contains(slot),
    ensures
        k <= steps,
        moved_up(t.at, t.risen(slot, steps, now).at, slot, k, now),
        came_to_rest(t.at, slot, k, steps, now),
    decreases steps,
{
    if slot > 0 && steps > 0 && t.at.dom().contains((slot - 1) as u32) && t.at[(slot
        - 1) as u32].points_at(now) < t.at[slot].points_at(now) {
        let p = (slot - 1) as u32;
        let u = t.swapped(slot);
        lemma_swapped(t, slot);
        let j = law_risers_pass_weaker_neighbours(u, p, (steps - 1) as nat, now);
        let k = j + 1;
        let after = t.risen(slot, steps, now).at;
        assert(after == u.risen(p, (steps - 1) as nat, now).at);
        assert(find(after, (slot - k) as u32) == find(t.at, slot)) by {
            assert((slot - k) as u32 == (p - j) as u32);
        }
        assert forall|i: u32| slot - k < i <= slot implies #[trigger] find(after, i) == find(
            t.at,
            (i - 1) as u32,
        ) by {
            if i == slot {
                assert(i > p);
                assert(find(after, i) == find(u.at, i));
            } else {
                assert(p - j < i <= p);
                assert(find(after, i) == find(u.at, (i - 1) as u32));
            }
        }
        assert forall|i: u32| slot - k <= i < slot implies (#[trigger] t.at[i]).points_at(now)
            < t.at[slot].points_at(now) by {
            if i != p {
                assert(u.at[i] == t.at[i]);
            }
        }
        assert forall|i: u32| i < slot - k || i > slot implies #[trigger] find(after, i) == find(
            t.at,
            i,
        ) by {
            assert(find(after, i) == find(u.at, i));
        }
        if k < slot {
            assert((slot - k - 1) as u32 == (p - j - 1) as u32);
            assert(find(u.at, (slot - k - 1) as u32) == find(t.at, (slot - k - 1) as u32));
        }
        k
    } else {
        0
    }
}

/// A listed player who scores keeps their number and gets the new score; they move up
/// from their slot as far as eight slots past weaker players. Nobody joins or leaves.
pub proof fn law_listed_players_move_up(
    t: Top,
    user: Address,
    points: u64,
    now: u32,
    slot: u32,
) -> (k: nat)
    requires
        t.wf(),
        forall|i: u32| i < t.len() ==> #[trigger] t.at.dom().contains(i),
        t.at.dom().contains(slot),
        t.at[slot].address == user,
    ensures
        ({
            let after = t.updated(user, points, now);
            let own = PlayerEntry { points, epoch: now, ..t.at[slot] };
            &&& k <= 8
            &&& moved_up(t.at.insert(slot, own), after.at, slot, k, now)
            &&& came_to_rest(t.at.insert(slot, own), slot, k, 8, now)
            &&& after.count == t.count
            &&& after.seq_counter == t.seq_counter
            &&& after.min_slot is Some && leaves_first(after, after.min_slot->0, now)
            &&& after.min_points == Some(after.at[after.min_slot->0].points_at(now))
        }),
{
    assert(t.holds(user, slot));
    lemma_place(t, user, slot);
    assert(t.dense());
    let own = PlayerEntry { points, epoch: now, ..t.at[slot] };
    lemma_put_in_place(t, slot, own);
    let p = t.put(slot, own);
    assert(p.at == t.at.insert(slot, own));
    assert(p.at.dom().contains(slot));
    let k = law_risers_pass_weaker_neighbours(p, slot, MAX_BUBBLE_STEPS as nat, now);
    lemma_risen(p, slot, MAX_BUBBLE_STEPS as nat, now);
    let r = p.risen(slot, MAX_BUBBLE_STEPS as nat, now);
    assert(r.at.dom().contains(slot));
    law_whoever_leaves_first_is_noted(r, now);
    k
}

/// A newcomer joins a list of fewer than 50 behind everybody, with the next number, and
/// moves up from there as far as eight slots past weaker players.
pub proof fn law_newcomers_join_behind(t: Top, user: Address, points: u64, now: u32) -> (k: nat)
    requires
        t.wf(),
        forall|i: u32| i < t.len() ==> #[trigger] t.at.dom().contains(i),
        forall|i: u32| #[trigger] t.at.dom().contains(i) ==> t.at[i].address != user,
        t.count.unwrap_or(0) < 50,
        t.seq_counter.unwrap_or(0) < u64::MAX,
    ensures
        ({
            let n = t.count.unwrap_or(0);
            let after = t.updated(user, points, now);
            let own = PlayerEntry {
                address: user,
                points,
                epoch: now,
                seq: t.seq_counter.unwrap_or(0),
            };
            &&& k <= 8
            &&& moved_up(t.at.insert(n, own), after.at, n, k, now)
            &&& came_to_rest(t.at.insert(n, own), n, k, 8, now)
            &&& after.count.unwrap_or(0) == n + 1
            &&& after.seq_counter.unwrap_or(0) == t.seq_counter.unwrap_or(0) + 1
        }),
{
    assert(!t.listed(user)) by {
        if t.listed(user) {
            let i = choose|i: u32| t.holds(user, i);
            assert(t.at.dom().contains(i));
        }
    }
    assert(t.dense());
    let n = t.len();
    let own = t.newcomer(user, points, now);
    lemma_put_behind(t, own);
    let p = Top {
        count: Some((n + 1) as u32),
        seq_counter: Some((t.next() + 1) as u64),
        ..t
    }.put(n, own);
    assert(p.at == t.at.insert(n, own));
    assert(p.at.dom().contains(n));
    let k = law_risers_pass_weaker_neighbours(p, n, MAX_BUBBLE_STEPS as nat, now);
    lemma_risen(p, n, MAX_BUBBLE_STEPS as nat, now);
    lemma_with_min(p.risen(n, MAX_BUBBLE_STEPS as nat, now), now);
    k
}

/// Among everybody in the list this one leaves first: nobody has a lower score, and
/// nobody with as low a score joined before.
pub open spec fn leaves_first(t: Top, slot: u32, now: u32) -> bool {
    &&& t.at.dom().contains(slot)
    &&& forall|i: u32| #[trigger]
        t.at.dom().contains(i) && i != slot ==> t.at[slot].points_at(now) < t.at[i].points_at(now)
            || t.at[slot].points_at(now) == t.at[i].points_at(now) && t.at[slot].seq < t.at[i].seq
}

/// A newcomer to a full list of 50 takes the slot of whoever leaves first, unless their
/// score is lower, and moves up from there; otherwise nobody moves.
pub proof fn law_newcomers_replace_the_weakest(
    t: Top,
    user: Address,
    points: u64,
    now: u32,
    slot: u32,
) -> (k: nat)
    requires
        t.wf(),
        forall|i: u32| i < t.len() ==> #[trigger] t.at.dom().contains(i),
        forall|i: u32| #[trigger] t.at.dom().contains(i) ==> t.at[i].address != user,
        t.count.unwrap_or(0) == 50,
        t.seq_counter.unwrap_or(0) < u64::MAX,
        leaves_first(t, slot, now),
    ensures
        ({
            let after = t.updated(user, points, now);
            let own = PlayerEntry {
                address: user,
                points,
                epoch: now,
                seq: t.seq_counter.unwrap_or(0),
            };
            &&& k <= 8
            &&& points < t.at[slot].points_at(now) ==> after.at == t.at && after.seq_counter
                == t.seq_counter
            &&& points >= t.at[slot].points_at(now) ==> moved_up(
                t.at.insert(slot, own),
                after.at,
                slot,
                k,
                now,
            ) && came_to_rest(t.at.insert(slot, own), slot, k, 8, now)
                && after.seq_counter.unwrap_or(0) == t.seq_counter.unwrap_or(0) + 1
            &&& after.count == t.count
        }),
{
    assert(!t.listed(user)) by {
        if t.listed(user) {
            let i = choose|i: u32| t.holds(user, i);
            assert(t.at.dom().contains(i));
        }
    }
    assert(t.dense());
    let f = Top { slot: t.slot.remove(user), ..t };
    lemma_forget(t, user);
    lemma_with_min(f, now);
    let g = f.with_min(now);
    lemma_weakest_taken(t.at, t.len() as nat, now);
    lemma_weakest_leaves_first(t.at, t.len() as nat, now, slot);
    let m = weakest(t.at, t.len() as nat, now)->0;
    assert(t.at.dom().contains(m));
    assert(m == slot);
    assert(g.least_slot() == slot);
    if points >= t.at[slot].points_at(now) {
        let own = g.newcomer(user, points, now);
        assert(!g.listed(user)) by {
            if g.listed(user) {
                let i = choose|i: u32| g.holds(user, i);
                assert(t.holds(user, i));
            }
        }
        lemma_put_instead(g, slot, own);
        let p = Top {
            seq_counter: Some((g.next() + 1) as u64),
            slot: g.slot.remove(g.at[slot].address),
            ..g
        }.put(slot, own);
        assert(p.at == t.at.insert(slot, own));
        assert(p.at.dom().contains(slot));
        let k = law_risers_pass_weaker_neighbours(p, slot, MAX_BUBBLE_STEPS as nat, now);
        lemma_risen(p, slot, MAX_BUBBLE_STEPS as nat, now);
        lemma_with_min(p.risen(slot, MAX_BUBBLE_STEPS as nat, now), now);
        k
    } else {
        0
    }
}

/// The note of who leaves first names them and their score; with nobody listed it
/// names the first slot and no points.
pub proof fn law_whoever_leaves_first_is_noted(t: Top, now: u32)
    requires
        t.wf(),
    ensures
        ({
            let after = t.with_min(now);
            &&& t.count.unwrap_or(0) == 0 ==> after.min_slot == Some(0u32) && after.min_points
                == Some(0u64)
            &&& (exists|i: u32| t.at.dom().contains(i)) ==> after.min_slot is Some && leaves_first(
                t,
                after.min_slot->0,
                now,
            ) && after.min_points == Some(t.at[after.min_slot->0].points_at(now))
            &&& after.at == t.at
            &&& after.slot == t.slot
            &&& after.count == t.count
            &&& after.seq_counter == t.seq_counter
        }),
{
    lemma_with_min(t, now);
    if exists|i: u32| t.at.dom().contains(i) {
        let i = choose|i: u32| t.at.dom().contains(i);
        assert(t.at.dom().contains(i));
        lemma_weakest_taken(t.at, t.len() as nat, now);
        lemma_weakest_leaves_first(t.at, t.len() as nat, now, i);
        let m = weakest(t.at, t.len() as nat, now)->0;
        assert forall|j: u32| #[trigger] t.at.dom().contains(j) && j != m implies t.at[m].points_at(
            now,
        ) < t.at[j].points_at(now) || t.at[m].points_at(now) == t.at[j].points_at(now)
            && t.at[m].seq < t.at[j].seq by {
            lemma_weakest_leaves_first(t.at, t.len() as nat, now, j);
            assert(t.at.dom().contains(m));
        }
    }
}

/// A penalty rewrites the score of a listed player where they stand. Nobody moves, and
/// nobody else's entry changes; a player who is not listed stays so.
pub proof fn law_penalties_move_nobody(t: Top, user: Address, points: u64, now: u32, slot: u32)
    requires
        t.wf(),
    ensures
        ({
            let after = t.lowered(user, points, now);
            &&& t.at.dom().contains(slot) && t.at[slot].address == user ==> find(after.at, slot)
                == Some(PlayerEntry { points, epoch: now, ..t.at[slot] })
            &&& !(t.at.dom().contains(slot) && t.at[slot].address == user) ==> find(
                after.at,
                slot,
            ) == find(t.at, slot)
            &&& after.count == t.count
            &&& after.seq_counter == t.seq_counter
            &&& t.at.dom().contains(slot) && t.at[slot].address == user ==> after.min_slot is Some
                && leaves_first(after, after.min_slot->0, now) && after.min_points == Some(
                after.at[after.min_slot->0].points_at(now),
            )
        }),
{
    if t.at.dom().contains(slot) && t.at[slot].address == user {
        assert(t.holds(user, slot));
        lemma_place(t, user, slot);
    }
    if let Some(i) = t.place(user) {
        assert(t.holds(user, i));
        let own = PlayerEntry { points, epoch: now, ..t.at[i] };
        lemma_put_in_place(t, i, own);
        assert(t.put(i, own).at.dom().contains(i));
        law_whoever_leaves_first_is_noted(t.put(i, own), now);
    }
}

/// Players found slot by slot keep their order.
proof fn lemma_found_in_order(t: Top, n: nat, i: u32, j: u32) -> (r: (int, int))
    requires
        t.wf(),
        i < j < n <= t.len(),
        t.at.dom().contains(i),
        t.at.dom().contains(j),
    ensures
        0 <= r.0 < r.1 < found(t.at, n).len(),
        found(t.at, n)[r.0] == t.at[i],
        found(t.at, n)[r.1] == t.at[j],
    decreases n,
{
    let m = (n - 1) as nat;
    if j < m {
        let r = lemma_found_in_order(t, m, i, j);
        assert(found(t.at, n)[r.0] == found(t.at, m)[r.0]);
        assert(found(t.at, n)[r.1] == found(t.at, m)[r.1]);
        r
    } else {
        let a = lemma_found_reaches(t, m, i);
        assert(m as u32 == j);
        assert(found(t.at, n) =~= found(t.at, m).push(t.at[j]));
        (a, found(t.at, m).len() as int)
    }
}

/// Closing gaps keeps every entry as it is and their order, and counts them.
pub proof fn law_gaps_close_in_order(t: Top, now: u32, i: u32, j: u32) -> (r: (u32, u32))
    requires
        t.wf(),
        i < j,
        t.at.dom().contains(i),
        t.at.dom().contains(j),
    ensures
        ({
            let after = t.repaired(now);
            &&& r.0 < r.1
            &&& find(after.at, r.0) == Some(t.at[i])
            &&& find(after.at, r.1) == Some(t.at[j])
            &&& after.seq_counter == t.seq_counter
            &&& forall|k: u32|
                (k < after.count.unwrap_or(0)) == #[trigger] after.at.dom().contains(k)
        }),
{
    lemma_repaired(t, now);
    lemma_found(t, t.len() as nat);
    let r = lemma_found_in_order(t, t.len() as nat, i, j);
    assert(t.repaired(now).at == slots(t.list()));
    (r.0 as u32, r.1 as u32)
}

/// The list that scoring starts from: the list itself where no slot is missing, and
/// otherwise the list with its gaps closed. Either way it has the same entries.
pub proof fn law_scoring_starts_from_everybody(t: Top, now: u32, e: PlayerEntry)
    requires
        t.wf(),
    ensures
        ({
            let c = t.consistent(now);
            let whole = forall|i: u32| i < t.count.unwrap_or(0) ==> #[trigger] t.at.dom().contains(i);
            let there = exists|i: u32| t.at.dom().contains(i) && #[trigger] t.at[i] == e;
            let still = exists|i: u32| c.at.dom().contains(i) && #[trigger] c.at[i] == e;
            &&& whole ==> c == t
            &&& !whole ==> c == t.repaired(now)
            &&& there == still
            &&& c.seq_counter == t.seq_counter
        }),
{
    lemma_repaired(t, now);
    lemma_repaired_entries(t, now, e);
    let c = t.consistent(now);
    lemma_sits(t, e);
    lemma_sits(c, e);
}

proof fn lemma_sits(t: Top, e: PlayerEntry)
    ensures
        t.has(e) == (exists|i: u32| t.at.dom().contains(i) && #[trigger] t.at[i] == e),
{
    if t.has(e) {
        let i = choose|i: u32| t.sits(e, i);
        assert(t.at.dom().contains(i) && t.at[i] == e);
    }
    assert forall|i: u32| t.at.dom().contains(i) && #[trigger] t.at[i] == e implies t.has(e) by {
        assert(t.sits(e, i));
    }
}

/// Dropping a player takes their entry and leaves everybody else's as it is.
pub proof fn law_dropping_leaves_the_others(t: Top, user: Address, now: u32, e: PlayerEntry)
    requires
        t.wf(),
    ensures
        ({
            let after = t.dropped(user, now);
            let there = exists|i: u32| t.at.dom().contains(i) && #[trigger] t.at[i] == e;
            let still = exists|i: u32| after.at.dom().contains(i) && #[trigger] after.at[i] == e;
            &&& e.address == user ==> !still
            &&& e.address != user ==> still == there
            &&& after.seq_counter == t.seq_counter
            &&& !(exists|i: u32| t.at.dom().contains(i) && (#[trigger] t.at[i]).address == user)
                ==> after.at == t.at && after.count == t.count
        }),
{
    let after = t.dropped(user, now);
    lemma_looked_up(t, user);
    let u = t.looked_up(user);
    lemma_sits(t, e);
    lemma_sits(u, e);
    lemma_sits(after, e);
    lemma_has_is_listed(t, e);
    match t.place(user) {
        Some(i) => {
            assert(t.holds(user, i));
            assert(t.at.dom().contains(i) && t.at[i].address == user);
            let c = u.cleared(i);
            lemma_cleared(u, i);
            lemma_repaired(c, now);
            lemma_repaired_entries(c, now, e);
            lemma_sits(c, e);
            assert forall|j: u32| c.at.dom().contains(j) && #[trigger] c.at[j]
                == e implies e.address != user && t.sits(e, j) by {
                assert(t.at.dom().contains(j) && t.at.dom().contains(i));
            }
            if e.address != user && t.has(e) {
                let j = choose|j: u32| t.sits(e, j);
                assert(c.sits(e, j));
            }
        },
        None => {
            if e.address == user && t.has(e) {
                assert(t.listed(user));
            }
        },
    }
}

/// Looking a player up notes for them the slot they hold, or nothing where they hold
/// none; nobody moves and nobody else's note changes. What it had to restore is renewed.
pub proof fn law_lookups_correct_the_note(t: Top, user: Address, other: Address, slot: u32)
    requires
        t.wf(),
        other != user,
    ensures
        ({
            let after = t.looked_up(user);
            let keys = t.looked_up_renews(user);
            let held = t.at.dom().contains(slot) && t.at[slot].address == user;
            let unlisted = forall|i: u32| #[trigger]
                t.at.dom().contains(i) ==> t.at[i].address != user;
            &&& held ==> find(after.slot, user) == Some(slot) && t.place(user) == Some(slot)
            &&& unlisted ==> find(after.slot, user) is None && t.place(user) is None
            &&& find(after.slot, other) == find(t.slot, other)
            &&& after == (Top { slot: after.slot, ..t })
            &&& held && find(t.slot, user) is None ==> keys == set![
                DataKey::TopPlayerAt(slot),
                DataKey::TopPlayerSlot(user),
            ]
            &&& find(t.slot, user) is Some || unlisted ==> keys == Set::<DataKey>::empty()
        }),
{
    if t.at.dom().contains(slot) && t.at[slot].address == user {
        assert(t.holds(user, slot));
        lemma_place(t, user, slot);
    }
    if t.listed(user) {
        let i = choose|i: u32| t.holds(user, i);
        assert(t.at.dom().contains(i));
    }
}

/// Scoring renews both entries of the slot it writes, and no others where no slot is
/// missing: the player's own, the one behind the last, or that of whoever leaves first.
pub proof fn law_scoring_renews_the_slot_it_writes(
    t: Top,
    user: Address,
    points: u64,
    now: u32,
    slot: u32,
)
    requires
        t.wf(),
        forall|i: u32| i < t.count.unwrap_or(0) ==> #[trigger] t.at.dom().contains(i),
    ensures
        ({
            let keys = t.updated_renews(user, points, now);
            let both = set![DataKey::TopPlayerAt(slot), DataKey::TopPlayerSlot(user)];
            let unlisted = forall|i: u32| #[trigger]
                t.at.dom().contains(i) ==> t.at[i].address != user;
            &&& t.at.dom().contains(slot) && t.at[slot].address == user ==> keys == both
            &&& unlisted && t.count.unwrap_or(0) < 50 && slot == t.count.unwrap_or(0) ==> keys
                == both
            &&& unlisted && t.count.unwrap_or(0) == 50 && leaves_first(t, slot, now) ==> {
                &&& points >= t.at[slot].points_at(now) ==> keys == both
                &&& points < t.at[slot].points_at(now) ==> keys == Set::<DataKey>::empty()
            }
        }),
{
    assert(t.dense());
    if t.at.dom().contains(slot) && t.at[slot].address == user {
        assert(t.holds(user, slot));
        lemma_place(t, user, slot);
    }
    if t.listed(user) {
        let i = choose|i: u32| t.holds(user, i);
        assert(t.at.dom().contains(i));
    }
    if leaves_first(t, slot, now) {
        lemma_weakest_taken(t.at, t.len() as nat, now);
        lemma_weakest_leaves_first(t.at, t.len() as nat, now, slot);
        let m = weakest(t.at, t.len() as nat, now)->0;
        assert(t.at.dom().contains(m));
        assert(m == slot);
    }
}

/// Both entries of everybody in a list without gaps are renewed with it, and no others.
pub proof fn law_whole_lists_are_renewed(list: Seq<PlayerEntry>, k: int, key: DataKey)
    requires
        list.len() <= u32::MAX,
    ensures
        0 <= k < list.len() ==> pairs(list).contains(DataKey::TopPlayerAt(k as u32)) && pairs(
            list,
        ).contains(DataKey::TopPlayerSlot(list[k].address)),
        pairs(list).contains(key) ==> match key {
            DataKey::TopPlayerAt(i) => i < list.len(),
            DataKey::TopPlayerSlot(who) => exists|j: int|
                0 <= j < list.len() && (#[trigger] list[j]).address == who,
            _ => false,
        },
    decreases list.len(),
{
    if list.len() > 0 {
        let front = list.drop_last();
        law_whole_lists_are_renewed(front, k, key);
        if 0 <= k < front.len() {
            assert(front[k] == list[k]);
        }
        if pairs(front).contains(key) {
            if let DataKey::TopPlayerSlot(who) = key {
                let j = choose|j: int|
                    0 <= j < front.len() && (#[trigger] front[j]).address == who;
                assert(list[j].address == who);
            }
        } else if pairs(list).contains(key) {
            if let DataKey::TopPlayerSlot(who) = key {
                assert(list[list.len() - 1].address == who);
            }
        }
    }
}

/// Moving up changes no note of somebody who is not in the list.
proof fn lemma_risen_forgets(t: Top, slot: u32, steps: nat, now: u32, who: Address)
    requires
        t.wf(),
        t.at.dom().contains(slot),
        forall|i: u32| #[trigger] t.at.dom().contains(i) ==> t.at[i].address != who,
    ensures
        find(t.risen(slot, steps, now).slot, who) == find(t.slot, who),
    decreases steps,
{
    if slot > 0 && steps > 0 && t.at.dom().contains((slot - 1) as u32) && t.at[(slot
        - 1) as u32].points_at(now) < t.at[slot].points_at(now) {
        let u = t.swapped(slot);
        lemma_swapped(t, slot);
        assert forall|i: u32| #[trigger] u.at.dom().contains(i) implies u.at[i].address != who by {
            assert(t.at.dom().contains(i));
            assert(t.at.dom().contains(slot) && t.at.dom().contains((slot - 1) as u32));
        }
        lemma_risen_forgets(u, (slot - 1) as u32, (steps - 1) as nat, now, who);
    }
}

proof fn lemma_noted_forgets(slot: Map<Address, u32>, list: Seq<PlayerEntry>, who: Address)
    requires
        forall|i: int| 0 <= i < list.len() ==> (#[trigger] list[i]).address != who,
    ensures
        find(noted(slot, list), who) == find(slot, who),
    decreases list.len(),
{
    if list.len() > 0 {
        let front = list.drop_last();
        assert forall|i: int| 0 <= i < front.len() implies (#[trigger] front[i]).address != who by {
            assert(front[i] == list[i]);
        }
        lemma_noted_forgets(slot, front, who);
        assert(list[list.len() - 1].address != who);
    }
}

/// Nobody who left is noted at a slot any more: neither whoever made room for a newcomer
/// nor whoever was dropped.
pub proof fn law_whoever_left_is_forgotten(
    t: Top,
    user: Address,
    points: u64,
    now: u32,
    slot: u32,
)
    requires
        t.wf(),
    ensures
        find(t.dropped(user, now).slot, user) is None,
        (forall|i: u32| i < t.len() ==> #[trigger] t.at.dom().contains(i)) && (forall|i: u32|
         #[trigger]
            t.at.dom().contains(i) ==> t.at[i].address != user) && t.count.unwrap_or(0) == 50
            && t.seq_counter.unwrap_or(0) < u64::MAX && leaves_first(t, slot, now) && points
            >= t.at[slot].points_at(now) ==> find(
            t.updated(user, points, now).slot,
            t.at[slot].address,
        ) is None,
{
    lemma_dropped_is_forgotten(t, user, now);
    if (forall|i: u32| i < t.len() ==> #[trigger] t.at.dom().contains(i)) && (forall|i: u32|
     #[trigger]
        t.at.dom().contains(i) ==> t.at[i].address != user) && t.count.unwrap_or(0) == 50
        && t.seq_counter.unwrap_or(0) < u64::MAX && leaves_first(t, slot, now) && points
        >= t.at[slot].points_at(now) {
        lemma_replaced_is_forgotten(t, user, points, now, slot);
    }
}

proof fn lemma_dropped_is_forgotten(t: Top, user: Address, now: u32)
    requires
        t.wf(),
    ensures
        find(t.dropped(user, now).slot, user) is None,
{
    lemma_looked_up(t, user);
    let u = t.looked_up(user);
    if let Some(i) = t.place(user) {
        assert(t.holds(user, i));
        let c = u.cleared(i);
        lemma_cleared(u, i);
        let list = c.list();
        lemma_found(c, c.len() as nat);
        assert forall|k: int| 0 <= k < list.len() implies (#[trigger] list[k]).address
            != user by {
            let o = choose|o: u32| o < c.len() && c.at.dom().contains(o) && c.at[o] == list[k];
            assert(t.at.dom().contains(o) && t.at.dom().contains(i));
        }
        lemma_noted_forgets(c.slot, list, user);
    }
}

proof fn lemma_replaced_is_forgotten(t: Top, user: Address, points: u64, now: u32, slot: u32)
    requires
        t.wf(),
        forall|i: u32| i < t.len() ==> #[trigger] t.at.dom().contains(i),
        forall|i: u32| #[trigger] t.at.dom().contains(i) ==> t.at[i].address != user,
        t.count.unwrap_or(0) == 50,
        t.seq_counter.unwrap_or(0) < u64::MAX,
        leaves_first(t, slot, now),
        points >= t.at[slot].points_at(now),
    ensures
        find(t.updated(user, points, now).slot, t.at[slot].address) is None,
{
    assert(!t.listed(user)) by {
        if t.listed(user) {
            let i = choose|i: u32| t.holds(user, i);
            assert(t.at.dom().contains(i));
        }
    }
    assert(t.dense());
    let f = Top { slot: t.slot.remove(user), ..t };
    lemma_forget(t, user);
    lemma_with_min(f, now);
    let g = f.with_min(now);
    lemma_weakest_taken(t.at, t.len() as nat, now);
    lemma_weakest_leaves_first(t.at, t.len() as nat, now, slot);
    let m = weakest(t.at, t.len() as nat, now)->0;
    assert(t.at.dom().contains(m));
    assert(m == slot);
    assert(!g.listed(user)) by {
        if g.listed(user) {
            let i = choose|i: u32| g.holds(user, i);
            assert(t.holds(user, i));
        }
    }
    let own = g.newcomer(user, points, now);
    lemma_put_instead(g, slot, own);
    let p = Top {
        seq_counter: Some((g.next() + 1) as u64),
        slot: g.slot.remove(g.at[slot].address),
        ..g
    }.put(slot, own);
    let who = t.at[slot].address;
    assert(who != user);
    assert forall|i: u32| #[trigger] p.at.dom().contains(i) implies p.at[i].address != who by {
        if i != slot {
            assert(t.at.dom().contains(i) && t.at.dom().contains(slot));
        }
    }
    assert(p.at.dom().contains(slot));
    lemma_risen_forgets(p, slot, MAX_BUBBLE_STEPS as nat, now, who);
    lemma_risen(p, slot, MAX_BUBBLE_STEPS as nat, now);
    lemma_with_min(p.risen(slot, MAX_BUBBLE_STEPS as nat, now), now);
}

/// The slots among the first `n` whose players have a higher score.
pub open spec fn stronger(at: Map<u32, PlayerEntry>, n: nat, now: u32, mine: u64) -> Set<u32> {
    Set::new(|i: u32| i < n && at.dom().contains(i) && at[i].points_at(now) > mine)
}

proof fn lemma_above_counts(at: Map<u32, PlayerEntry>, n: nat, now: u32, mine: u64)
    requires
        n <= u32::MAX,
    ensures
        stronger(at, n, now, mine).finite(),
        stronger(at, n, now, mine).len() == above(at, n, now, mine),
    decreases n,
{
    if n == 0 {
        assert(stronger(at, n, now, mine) =~= Set::empty());
    } else {
        let m = (n - 1) as nat;
        lemma_above_counts(at, m, now, mine);
        let i = m as u32;
        let s = stronger(at, m, now, mine);
        if at.dom().contains(i) && at[i].points_at(now) > mine {
            assert(stronger(at, n, now, mine) =~= s.insert(i));
        } else {
            assert(stronger(at, n, now, mine) =~= s);
        }
    }
}

/// A rank is one more than the number of listed players with a higher score of the
/// moment; whoever is not listed ranks 51st.
pub proof fn law_ranks_count_the_stronger(
    s: LeaderboardState,
    user: Address,
    now: u32,
    slot: u32,
)
    requires
        s.wf(),
    ensures
        s.top.at.dom().contains(slot) && s.top.at[slot].address == user ==> s.rank(user, now) == 1
            + stronger(
            s.top.at,
            s.top.count.unwrap_or(0) as nat,
            now,
            s.top.at[slot].points_at(now),
        ).len(),
        (forall|i: u32| #[trigger] s.top.at.dom().contains(i) ==> s.top.at[i].address != user)
            ==> s.rank(user, now) == 51,
{
    if s.top.at.dom().contains(slot) && s.top.at[slot].address == user {
        assert(s.top.holds(user, slot));
        lemma_place(s.top, user, slot);
        lemma_above_counts(s.top.at, s.top.len() as nat, now, s.top.at[slot].points_at(now));
    }
    if s.top.listed(user) {
        let i = choose|i: u32| s.top.holds(user, i);
        assert(s.top.at.dom().contains(i));
    }
}

/// A page shows the ranking from the offset on, at most as many as asked for and at
/// most 50.
pub proof fn law_pages_show_the_ranking(t: Top, now: u32, offset: u32, page_size: u32, k: int)
    ensures
        ({
            let all = ranking(t, now);
            let shown = page(t, now, offset, page_size);
            &&& shown.len() <= page_size
            &&& shown.len() <= 50
            &&& 0 <= k < shown.len() ==> shown[k] == all[offset + k]
            &&& offset + shown.len() < all.len() ==> shown.len() == page_size || shown.len() == 50
            &&& offset <= all.len() ==> offset + shown.len() <= all.len()
        }),
{
}

/// In the standings everybody in the list stands in slot order with the score of the
/// moment; who they are and when they joined is as in the list.
pub proof fn law_standings_show_the_list(t: Top, now: u32, k: int)
    requires
        t.wf(),
        forall|i: u32| i < t.count.unwrap_or(0) ==> #[trigger] t.at.dom().contains(i),
        0 <= k < t.count.unwrap_or(0),
    ensures
        ({
            let all = standings(t, now);
            let e = t.at[k as u32];
            &&& all.len() == t.count.unwrap_or(0)
            &&& all[k].address == e.address
            &&& all[k].seq == e.seq
            &&& all[k].points == e.points_at(now)
            &&& all[k].epoch == now
        }),
{
    lemma_found_dense(t.at, t.len() as nat);
}

proof fn lemma_found_dense(at: Map<u32, PlayerEntry>, n: nat)
    requires
        n <= u32::MAX,
        forall|i: u32| i < n ==> #[trigger] at.dom().contains(i),
    ensures
        found(at, n).len() == n,
        forall|k: int| 0 <= k < n ==> #[trigger] found(at, n)[k] == at[k as u32],
    decreases n,
{
    if n > 0 {
        lemma_found_dense(at, (n - 1) as nat);
        assert(at.dom().contains((n - 1) as u32));
    }
}

} // verus!
