//! Why the operations on the top list keep it well formed.
use crate::address::Address;
use crate::leaderboard::top_model::{found, noted, slots, weaker, weakest, Top};
use crate::leaderboard::types::{PlayerEntry, MAX_BUBBLE_STEPS, MAX_TOP_PLAYERS};
use vstd::prelude::*;

verus! {

/// In a well-formed list a player holds at most one slot.
pub proof fn lemma_place(t: Top, user: Address, slot: u32)
    requires
        t.wf(),
        t.holds(user, slot),
    ensures
        t.place(user) == Some(slot),
{
    let c = choose|s: u32| t.holds(user, s);
    assert(t.holds(user, c));
    assert(t.at.dom().contains(c) && t.at.dom().contains(slot));
}

/// Rewriting the score of a listed player keeps the list well formed.
pub proof fn lemma_put_in_place(t: Top, slot: u32, entry: PlayerEntry)
    requires
        t.wf(),
        t.holds(entry.address, slot),
        entry.seq == t.at[slot].seq,
    ensures
        t.put(slot, entry).wf(),
        t.put(slot, entry).at.dom() =~= t.at.dom(),
        t.put(slot, entry).place(entry.address) == Some(slot),
{
    let u = t.put(slot, entry);
    assert(u.at.dom() =~= t.at.dom());
    assert forall|i: u32| #[trigger]
        u.at.dom().contains(i) && u.slot.dom().contains(
            u.at[i].address,
        ) implies u.slot[u.at[i].address] == i by {
        assert(t.at.dom().contains(i));
        if i != slot {
            assert(t.at[i].address != t.at[slot].address);
        }
    }
    assert(u.wf());
    assert(u.holds(entry.address, slot));
    lemma_place(u, entry.address, slot);
}

/// A player who is not listed can take the slot behind the last one.
pub proof fn lemma_put_behind(t: Top, entry: PlayerEntry)
    requires
        t.wf(),
        t.len() < MAX_TOP_PLAYERS,
        !t.listed(entry.address),
        entry.seq == t.next(),
        t.next() < u64::MAX,
    ensures
        ({
            let u = Top {
                count: Some((t.len() + 1) as u32),
                seq_counter: Some((t.next() + 1) as u64),
                ..t
            }.put(t.len(), entry);
            &&& u.wf()
            &&& t.dense() ==> u.dense()
        }),
{
    let n = t.len();
    let u = Top {
        count: Some((n + 1) as u32),
        seq_counter: Some((t.next() + 1) as u64),
        ..t
    }.put(n, entry);
    assert forall|i: u32| t.at.dom().contains(i) implies t.at[i].address != entry.address by {
        if t.at[i].address == entry.address {
            assert(t.holds(entry.address, i));
        }
    }
    assert forall|i: u32| #[trigger] u.at.dom().contains(i) implies i == n || t.at.dom().contains(
        i,
    ) by {}
    assert forall|i: u32, j: u32| #[trigger]
        u.at.dom().contains(i) && #[trigger] u.at.dom().contains(j) && u.at[i].address
            == u.at[j].address implies i == j by {
        if i != n {
            assert(t.at.dom().contains(i));
        }
        if j != n {
            assert(t.at.dom().contains(j));
        }
    }
    assert forall|i: u32, j: u32| #[trigger]
        u.at.dom().contains(i) && #[trigger] u.at.dom().contains(j) && u.at[i].seq
            == u.at[j].seq implies i == j by {
        if i != n {
            assert(t.at.dom().contains(i));
        }
        if j != n {
            assert(t.at.dom().contains(j));
        }
    }
    assert(u.wf());
    if t.dense() {
        assert forall|i: u32| i < u.len() implies #[trigger] u.at.dom().contains(i) by {
            if i != n {
                assert(t.at.dom().contains(i));
            }
        }
    }
}

/// A player who is not listed can replace a listed one.
pub proof fn lemma_put_instead(t: Top, slot: u32, entry: PlayerEntry)
    requires
        t.wf(),
        t.at.dom().contains(slot),
        !t.listed(entry.address),
        entry.seq == t.next(),
        t.next() < u64::MAX,
    ensures
        ({
            let u = Top {
                seq_counter: Some((t.next() + 1) as u64),
                slot: t.slot.remove(t.at[slot].address),
                ..t
            }.put(slot, entry);
            &&& u.wf()
            &&& u.at.dom() =~= t.at.dom()
        }),
{
    let u = Top {
        seq_counter: Some((t.next() + 1) as u64),
        slot: t.slot.remove(t.at[slot].address),
        ..t
    }.put(slot, entry);
    assert forall|i: u32| t.at.dom().contains(i) implies t.at[i].address != entry.address by {
        if t.at[i].address == entry.address {
            assert(t.holds(entry.address, i));
        }
    }
    assert(u.at.dom() =~= t.at.dom());
    assert forall|i: u32| #[trigger]
        u.at.dom().contains(i) && u.slot.dom().contains(
            u.at[i].address,
        ) implies u.slot[u.at[i].address] == i by {
        assert(t.at.dom().contains(i));
        if i != slot {
            assert(t.at[i].address != t.at[slot].address);
        }
    }
    assert(u.wf());
}

/// Forgetting a noted slot keeps the list well formed.
pub proof fn lemma_forget(t: Top, user: Address)
    requires
        t.wf(),
    ensures
        (Top { slot: t.slot.remove(user), ..t }).wf(),
{
    let u = Top { slot: t.slot.remove(user), ..t };
    assert forall|i: u32| #[trigger] u.at.dom().contains(i) implies t.at.dom().contains(i) by {}
}

/// Bringing the note of the weakest up to date keeps everything else.
pub proof fn lemma_with_min(t: Top, now: u32)
    requires
        t.wf(),
    ensures
        t.with_min(now).wf(),
        t.with_min(now).at == t.at,
        t.with_min(now).slot == t.slot,
        t.with_min(now).count == t.count,
        t.with_min(now).seq_counter == t.seq_counter,
{
    let u = t.with_min(now);
    assert forall|i: u32| #[trigger] u.at.dom().contains(i) implies t.at.dom().contains(i) by {}
}

/// Swapping two neighbours keeps the list well formed.
pub proof fn lemma_swapped(t: Top, slot: u32)
    requires
        t.wf(),
        slot > 0,
        t.at.dom().contains(slot),
        t.at.dom().contains((slot - 1) as u32),
    ensures
        t.swapped(slot).wf(),
        t.swapped(slot).at.dom() =~= t.at.dom(),
        t.swapped(slot).at[(slot - 1) as u32] == t.at[slot],
{
    let u = t.swapped(slot);
    let p = (slot - 1) as u32;
    assert(u.at.dom() =~= t.at.dom());
    assert(t.at[slot].address != t.at[p].address);
    assert forall|i: u32| #[trigger]
        u.at.dom().contains(i) && u.slot.dom().contains(
            u.at[i].address,
        ) implies u.slot[u.at[i].address] == i by {
        assert(t.at.dom().contains(i));
        if i != slot && i != p {
            assert(t.at[i].address != t.at[slot].address);
            assert(t.at[i].address != t.at[p].address);
        }
    }
    assert forall|i: u32, j: u32| #[trigger]
        u.at.dom().contains(i) && #[trigger] u.at.dom().contains(j) && u.at[i].address
            == u.at[j].address implies i == j by {
        assert(t.at.dom().contains(i) && t.at.dom().contains(j));
    }
    assert forall|i: u32, j: u32| #[trigger]
        u.at.dom().contains(i) && #[trigger] u.at.dom().contains(j) && u.at[i].seq
            == u.at[j].seq implies i == j by {
        assert(t.at.dom().contains(i) && t.at.dom().contains(j));
    }
    assert(u.wf());
}

/// A player who moves up leaves the list well formed and its slots taken.
pub proof fn lemma_risen(t: Top, slot: u32, steps: nat, now: u32)
    requires
        t.wf(),
        t.at.dom().contains(slot),
    ensures
        t.risen(slot, steps, now).wf(),
        t.risen(slot, steps, now).at.dom() =~= t.at.dom(),
        t.risen(slot, steps, now).count == t.count,
        t.risen(slot, steps, now).seq_counter == t.seq_counter,
    decreases steps,
{
    if slot > 0 && steps > 0 && t.at.dom().contains((slot - 1) as u32) && t.at[(slot
        - 1) as u32].points_at(now) < t.at[slot].points_at(now) {
        lemma_swapped(t, slot);
        lemma_risen(t.swapped(slot), (slot - 1) as u32, (steps - 1) as nat, now);
    }
}

/// The weakest entry is one of those considered.
pub proof fn lemma_weakest_taken(at: Map<u32, PlayerEntry>, n: nat, now: u32)
    requires
        n <= u32::MAX,
    ensures
        weakest(at, n, now) matches Some(m) ==> at.dom().contains(m) && m < n,
        weakest(at, n, now) is None ==> forall|i: u32| i < n ==> !#[trigger] at.dom().contains(i),
    decreases n,
{
    if n > 0 {
        lemma_weakest_taken(at, (n - 1) as nat, now);
        assert forall|i: u32|
            weakest(at, n, now) is None && i < n implies !#[trigger] at.dom().contains(i) by {
            if i < n - 1 {
            } else {
                assert(i == (n - 1) as u32);
            }
        }
    }
}

/// Nobody considered would leave before the weakest.
pub proof fn lemma_weakest_leaves_first(at: Map<u32, PlayerEntry>, n: nat, now: u32, i: u32)
    requires
        n <= u32::MAX,
        i < n,
        at.dom().contains(i),
    ensures
        weakest(at, n, now) matches Some(m) && !weaker(at[i], at[m], now),
    decreases n,
{
    lemma_weakest_taken(at, n, now);
    lemma_weakest_taken(at, (n - 1) as nat, now);
    if i < n - 1 {
        lemma_weakest_leaves_first(at, (n - 1) as nat, now, i);
    }
}

/// Where the players found in the first `n` slots come from.
pub proof fn lemma_found(t: Top, n: nat)
    requires
        t.wf(),
        n <= t.len(),
    ensures
        found(t.at, n).len() <= n,
        forall|k: int|
            0 <= k < found(t.at, n).len() ==> exists|i: u32|
                i < n && t.at.dom().contains(i) && t.at[i] == #[trigger] found(t.at, n)[k],
        forall|k: int, l: int|
            0 <= k < l < found(t.at, n).len() ==> (#[trigger] found(t.at, n)[k]).address != (
            #[trigger] found(t.at, n)[l]).address && found(t.at, n)[k].seq != found(
                t.at,
                n,
            )[l].seq,
    decreases n,
{
    if n > 0 {
        let m = (n - 1) as nat;
        lemma_found(t, m);
        let before = found(t.at, m);
        let list = found(t.at, n);
        if t.at.dom().contains(m as u32) {
            assert(list =~= before.push(t.at[m as u32]));
        }
        assert forall|k: int| 0 <= k < list.len() implies exists|i: u32|
            i < n && t.at.dom().contains(i) && t.at[i] == #[trigger] list[k] by {
            if k < before.len() {
                assert(list[k] == before[k]);
                let i = choose|i: u32| i < m && t.at.dom().contains(i) && t.at[i] == before[k];
                assert(i < n && t.at.dom().contains(i) && t.at[i] == list[k]);
            } else {
                assert(t.at[m as u32] == list[k]);
            }
        }
        assert forall|k: int, l: int| 0 <= k < l < list.len() implies (
        #[trigger] list[k]).address != (#[trigger] list[l]).address && list[k].seq
            != list[l].seq by {
            assert(list[k] == before[k]);
            if l < before.len() {
                assert(list[l] == before[l]);
            } else {
                let i = choose|i: u32| i < m && t.at.dom().contains(i) && t.at[i] == before[k];
                assert(t.at.dom().contains(i) && t.at.dom().contains(m as u32));
            }
        }
    }
}

/// Along a list without repeats everybody is noted where they stand.
pub proof fn lemma_noted(slot: Map<Address, u32>, list: Seq<PlayerEntry>, k: int)
    requires
        0 <= k < list.len() <= u32::MAX,
        forall|i: int, j: int|
            0 <= i < j < list.len() ==> (#[trigger] list[i]).address != (
            #[trigger] list[j]).address,
    ensures
        noted(slot, list).dom().contains(list[k].address),
        noted(slot, list)[list[k].address] == k,
    decreases list.len(),
{
    let front = list.drop_last();
    if k < front.len() {
        assert forall|i: int, j: int| 0 <= i < j < front.len() implies (
        #[trigger] front[i]).address != (#[trigger] front[j]).address by {
            assert(front[i] == list[i] && front[j] == list[j]);
        }
        assert(front[k] == list[k]);
        lemma_noted(slot, front, k);
        assert(list[k].address != list[list.len() - 1].address);
    }
}

/// A repaired list is well formed and without gaps.
pub proof fn lemma_repaired(t: Top, now: u32)
    requires
        t.wf(),
    ensures
        t.repaired(now).wf(),
        t.repaired(now).dense(),
        t.repaired(now).len() <= t.len(),
        t.repaired(now).at == slots(t.list()),
        t.repaired(now).len() == t.list().len(),
        t.repaired(now).seq_counter == t.seq_counter,
        forall|user: Address| t.repaired(now).listed(user) == t.listed(user),
{
    let list = t.list();
    lemma_found(t, t.len() as nat);
    let u = Top {
        count: Some(list.len() as u32),
        at: slots(list),
        slot: noted(t.slot, list),
        ..t
    };
    assert forall|i: u32| #[trigger] u.at.dom().contains(i) implies u.at[i] == list[i as int]
        && u.at[i].seq < u.next() by {
        let o = choose|o: u32|
            o < t.len() && t.at.dom().contains(o) && t.at[o] == list[i as int];
        assert(t.at.dom().contains(o));
    }
    assert forall|i: u32, j: u32| #[trigger]
        u.at.dom().contains(i) && #[trigger] u.at.dom().contains(j) && (u.at[i].address
            == u.at[j].address || u.at[i].seq == u.at[j].seq) implies i == j by {
        assert(u.at[i] == list[i as int] && u.at[j] == list[j as int]);
        if i < j {
            assert(list[i as int].address != list[j as int].address);
        }
        if j < i {
            assert(list[j as int].address != list[i as int].address);
        }
    }
    assert forall|i: u32| #[trigger]
        u.at.dom().contains(i) && u.slot.dom().contains(
            u.at[i].address,
        ) implies u.slot[u.at[i].address] == i by {
        assert(u.at[i] == list[i as int]);
        lemma_noted(t.slot, list, i as int);
    }
    assert(u.wf());
    lemma_with_min(u, now);
    assert(t.repaired(now) == u.with_min(now));
    assert forall|user: Address| t.repaired(now).listed(user) == t.listed(user) by {
        if t.listed(user) {
            let i = choose|i: u32| t.holds(user, i);
            assert(t.at.dom().contains(i));
            let k = lemma_found_reaches(t, t.len() as nat, i);
            assert(u.at.dom().contains(k as u32));
            assert(t.repaired(now).holds(user, k as u32));
        }
        if t.repaired(now).listed(user) {
            let k = choose|k: u32| t.repaired(now).holds(user, k);
            assert(u.at[k] == list[k as int]);
            let o = choose|o: u32|
                o < t.len() && t.at.dom().contains(o) && t.at[o] == list[k as int];
            assert(t.holds(user, o));
        }
    }
}

/// Every taken slot appears among the players found.
pub proof fn lemma_found_reaches(t: Top, n: nat, i: u32) -> (k: int)
    requires
        t.wf(),
        i < n <= t.len(),
        t.at.dom().contains(i),
    ensures
        0 <= k < found(t.at, n).len(),
        found(t.at, n)[k] == t.at[i],
    decreases n,
{
    let m = (n - 1) as nat;
    lemma_found(t, n);
    lemma_found(t, m);
    if i < m {
        let k = lemma_found_reaches(t, m, i);
        assert(found(t.at, n)[k] == found(t.at, m)[k]);
        k
    } else {
        assert(i == m as u32);
        assert(found(t.at, n) =~= found(t.at, m).push(t.at[i]));
        found(t.at, m).len() as int
    }
}

/// Looking a player up keeps the list well formed.
pub proof fn lemma_looked_up(t: Top, user: Address)
    requires
        t.wf(),
    ensures
        t.looked_up(user).wf(),
        t.looked_up(user).place(user) == t.place(user),
{
    let u = t.looked_up(user);
    match t.place(user) {
        Some(i) => {
            assert(t.holds(user, i));
            lemma_put_in_place(t, i, t.at[i]);
            assert(t.at.insert(i, t.at[i]) =~= t.at);
            assert(u == t.put(i, t.at[i]));
        },
        None => {
            lemma_forget(t, user);
            if u.listed(user) {
                let i = choose|i: u32| u.holds(user, i);
                assert(t.holds(user, i));
            }
        },
    }
}

/// Emptying a slot keeps the list well formed.
pub proof fn lemma_cleared(t: Top, slot: u32)
    requires
        t.wf(),
    ensures
        t.cleared(slot).wf(),
{
    let u = t.cleared(slot);
    assert forall|i: u32| #[trigger] u.at.dom().contains(i) implies t.at.dom().contains(i)
        && t.at[i] == u.at[i] by {}
}

/// After an update the list is well formed and without gaps.
pub proof fn lemma_updated(t: Top, user: Address, points: u64, now: u32)
    requires
        t.wf(),
        t.can_update(user, points, now),
    ensures
        t.updated(user, points, now).wf(),
        t.updated(user, points, now).dense(),
{
    let c = t.consistent(now);
    if !t.dense() {
        lemma_repaired(t, now);
    }
    match c.place(user) {
        Some(i) => {
            assert(c.holds(user, i));
            let e = PlayerEntry { points, epoch: now, ..c.at[i] };
            lemma_put_in_place(c, i, e);
            let p = c.put(i, e);
            assert(p.at.dom().contains(i));
            lemma_risen(p, i, MAX_BUBBLE_STEPS as nat, now);
            lemma_with_min(p.risen(i, MAX_BUBBLE_STEPS as nat, now), now);
            assert(t.updated(user, points, now).at.dom() =~= c.at.dom());
            assert forall|j: u32| j < t.updated(user, points, now).len() implies #[trigger]
                t.updated(user, points, now).at.dom().contains(j) by {
                assert(c.at.dom().contains(j));
            }
        },
        None => if c.len() < MAX_TOP_PLAYERS {
            let e = c.newcomer(user, points, now);
            lemma_put_behind(c, e);
            let p = Top {
                count: Some((c.len() + 1) as u32),
                seq_counter: Some((c.next() + 1) as u64),
                ..c
            }.put(c.len(), e);
            assert(p.at.dom().contains(c.len()));
            lemma_risen(p, c.len(), MAX_BUBBLE_STEPS as nat, now);
            let r = p.risen(c.len(), MAX_BUBBLE_STEPS as nat, now);
            lemma_with_min(r, now);
            assert forall|j: u32| j < t.updated(user, points, now).len() implies #[trigger]
                t.updated(user, points, now).at.dom().contains(j) by {
                assert(p.at.dom().contains(j));
            }
        } else {
            lemma_challenged(c, user, points, now);
        },
    }
}

/// A challenge leaves a full list well formed and without gaps.
proof fn lemma_challenged(c: Top, user: Address, points: u64, now: u32)
    requires
        c.wf(),
        c.dense(),
        c.len() == MAX_TOP_PLAYERS,
        !c.listed(user),
        points >= c.at[c.with_min(now).least_slot()].points_at(now) ==> c.next() < u64::MAX,
    ensures
        c.challenged(user, points, now).wf(),
        c.challenged(user, points, now).dense(),
        c.at.dom().contains(c.with_min(now).least_slot()),
{
    let f = Top { slot: c.slot.remove(user), ..c };
    lemma_forget(c, user);
    let g = f.with_min(now);
    lemma_with_min(f, now);
    lemma_with_min(c, now);
    lemma_weakest_taken(c.at, c.len() as nat, now);
    assert(c.at.dom().contains(0u32));
    let m = g.least_slot();
    assert(m == c.with_min(now).least_slot());
    assert(g.at.dom().contains(m));
    let r = c.challenged(user, points, now);
    if points >= g.at[m].points_at(now) {
        let e = g.newcomer(user, points, now);
        assert forall|i: u32| g.holds(user, i) implies false by {
            assert(c.holds(user, i));
        }
        lemma_put_instead(g, m, e);
        let p = Top {
            seq_counter: Some((g.next() + 1) as u64),
            slot: g.slot.remove(g.at[m].address),
            ..g
        }.put(m, e);
        assert(p.at.dom().contains(m));
        lemma_risen(p, m, MAX_BUBBLE_STEPS as nat, now);
        lemma_with_min(p.risen(m, MAX_BUBBLE_STEPS as nat, now), now);
        assert(r.at.dom() =~= c.at.dom());
        assert forall|j: u32| j < r.len() implies #[trigger] r.at.dom().contains(j) by {
            assert(c.at.dom().contains(j));
        }
    } else {
        assert forall|j: u32| j < r.len() implies #[trigger] r.at.dom().contains(j) by {
            assert(c.at.dom().contains(j));
        }
    }
}

} // verus!
