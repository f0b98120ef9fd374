//! What holds of the leaderboard as a whole.
use crate::address::Address;
use crate::env::{Effect, Ledger};
use crate::leaderboard::decay::epoch_of;
use crate::leaderboard::state::{
    bet_gain, claim_gain, role_named, Done, LeaderboardState, Verdict,
};
use crate::leaderboard::top_model::{above, weakest, Top};
use crate::leaderboard::top_proofs::{
    lemma_put_behind, lemma_put_in_place, lemma_put_instead, lemma_repaired, lemma_risen,
    lemma_weakest_leaves_first, lemma_weakest_taken, lemma_with_min, lemma_forget, lemma_cleared,
    lemma_looked_up,
};
use crate::leaderboard::types::{
    LeaderboardError, PlayerEntry, Role, MAX_BUBBLE_STEPS, MAX_TOP_PLAYERS, UNRANKED_RANK,
};
use crate::table::find;
use vstd::prelude::*;

verus! {

proof fn lemma_above_bound(at: Map<u32, PlayerEntry>, n: nat, now: u32, mine: u64)
    ensures
        above(at, n, now, mine) <= n,
    decreases n,
{
    if n > 0 {
        lemma_above_bound(at, (n - 1) as nat, now, mine);
    }
}

/// Fewer players are above a higher score; and a player in view counts.
proof fn lemma_above_order(at: Map<u32, PlayerEntry>, n: nat, now: u32, low: u64, high: u64)
    requires
        low <= high,
    ensures
        above(at, n, now, high) <= above(at, n, now, low),
    decreases n,
{
    if n > 0 {
        lemma_above_order(at, (n - 1) as nat, now, low, high);
    }
}

proof fn lemma_above_strict(
    at: Map<u32, PlayerEntry>,
    n: nat,
    now: u32,
    low: u64,
    slot: u32,
)
    requires
        n <= u32::MAX,
        slot < n,
        at.dom().contains(slot),
        low < at[slot].points_at(now),
    ensures
        above(at, n, now, at[slot].points_at(now)) < above(at, n, now, low),
    decreases n,
{
    let high = at[slot].points_at(now);
    let m = (n - 1) as nat;
    if slot < m {
        lemma_above_strict(at, m, now, low, slot);
    } else {
        assert(slot == m as u32);
        lemma_above_order(at, m, now, low, high);
    }
}

/// A listed player ranks from first to last place of the list, and any such
/// rank is better than that of a player who is not listed.
pub proof fn law_ranks_stay_below_unranked(s: LeaderboardState, user: Address, now: u32)
    requires
        s.wf(),
    ensures
        s.top.listed(user) ==> 1 <= s.rank(user, now) <= MAX_TOP_PLAYERS < UNRANKED_RANK,
        !s.top.listed(user) ==> s.rank(user, now) == UNRANKED_RANK,
{
    if let Some(i) = s.top.place(user) {
        assert(s.top.holds(user, i));
        lemma_above_skips(s.top.at, s.top.len() as nat, now, i);
    }
}

/// Nobody is above themselves.
proof fn lemma_above_skips(at: Map<u32, PlayerEntry>, n: nat, now: u32, slot: u32)
    requires
        n <= u32::MAX,
        slot < n,
        at.dom().contains(slot),
    ensures
        above(at, n, now, at[slot].points_at(now)) < n,
    decreases n,
{
    let m = (n - 1) as nat;
    if slot < m {
        lemma_above_skips(at, m, now, slot);
    } else {
        assert(slot == m as u32);
        lemma_above_bound(at, m, now, at[slot].points_at(now));
    }
}

/// Of two listed players the one with the higher score ranks strictly better,
/// and equal scores rank equally.
pub proof fn law_rank_follows_score(s: LeaderboardState, strong: Address, weak: Address, now: u32)
    requires
        s.wf(),
        s.top.listed(strong),
        s.top.listed(weak),
    ensures
        ({
            let a = s.top.at[s.top.place(strong)->0].points_at(now);
            let b = s.top.at[s.top.place(weak)->0].points_at(now);
            &&& a > b ==> s.rank(strong, now) < s.rank(weak, now)
            &&& a == b ==> s.rank(strong, now) == s.rank(weak, now)
        }),
{
    let i = s.top.place(strong)->0;
    let j = s.top.place(weak)->0;
    assert(s.top.holds(strong, i));
    assert(s.top.holds(weak, j));
    if s.top.at[i].points_at(now) > s.top.at[j].points_at(now) {
        lemma_above_strict(s.top.at, s.top.len() as nat, now, s.top.at[j].points_at(now), i);
    }
}

proof fn lemma_swapped_listed(t: Top, slot: u32, user: Address)
    requires
        slot > 0,
        t.at.dom().contains(slot),
        t.at.dom().contains((slot - 1) as u32),
    ensures
        t.swapped(slot).listed(user) == t.listed(user),
{
    let p = (slot - 1) as u32;
    let u = t.swapped(slot);
    if t.listed(user) {
        let i = choose|i: u32| t.holds(user, i);
        if i == slot {
            assert(u.holds(user, p));
        } else if i == p {
            assert(u.holds(user, slot));
        } else {
            assert(u.holds(user, i));
        }
    }
    if u.listed(user) {
        let i = choose|i: u32| u.holds(user, i);
        if i == slot {
            assert(t.holds(user, p));
        } else if i == p {
            assert(t.holds(user, slot));
        } else {
            assert(t.holds(user, i));
        }
    }
}

proof fn lemma_risen_listed(t: Top, slot: u32, steps: nat, now: u32, user: Address)
    requires
        t.at.dom().contains(slot),
    ensures
        t.risen(slot, steps, now).listed(user) == t.listed(user),
    decreases steps,
{
    if slot > 0 && steps > 0 && t.at.dom().contains((slot - 1) as u32) && t.at[(slot
        - 1) as u32].points_at(now) < t.at[slot].points_at(now) {
        lemma_swapped_listed(t, slot, user);
        assert(t.swapped(slot).at.dom().contains((slot - 1) as u32));
        lemma_risen_listed(t.swapped(slot), (slot - 1) as u32, (steps - 1) as nat, now, user);
    }
}

/// Only who holds the rewritten slot can be affected by a write to it.
proof fn lemma_put_listed(t: Top, slot: u32, entry: PlayerEntry, user: Address)
    requires
        t.wf(),
    ensures
        t.put(slot, entry).listed(user) == (user == entry.address || t.listed(user)
            && !t.holds(user, slot)),
{
    let u = t.put(slot, entry);
    if user == entry.address {
        assert(u.holds(user, slot));
    } else {
        if t.listed(user) && !t.holds(user, slot) {
            let i = choose|i: u32| t.holds(user, i);
            assert(u.holds(user, i));
        }
        if u.listed(user) {
            let i = choose|i: u32| u.holds(user, i);
            assert(t.holds(user, i));
            if t.holds(user, slot) {
                assert(t.at.dom().contains(i) && t.at.dom().contains(slot));
            }
        }
    }
}

proof fn lemma_same_at_same_listed(t: Top, u: Top, user: Address)
    requires
        t.at == u.at,
    ensures
        t.listed(user) == u.listed(user),
{
    if t.listed(user) {
        let i = choose|i: u32| t.holds(user, i);
        assert(u.holds(user, i));
    }
    if u.listed(user) {
        let i = choose|i: u32| u.holds(user, i);
        assert(t.holds(user, i));
    }
}

/// Scoring lists a player who was not listed only while there is room, or by
/// displacing the one player who leaves first; everybody else stays. A
/// newcomer weaker than everyone listed changes nothing.
pub proof fn law_only_the_weakest_makes_room(
    t: Top,
    user: Address,
    points: u64,
    now: u32,
    other: Address,
)
    requires
        t.wf(),
        t.can_update(user, points, now),
        other != user,
    ensures
        ({
            let c = t.consistent(now);
            let m = weakest(c.at, c.len() as nat, now);
            let full = c.len() == MAX_TOP_PLAYERS;
            let after = t.updated(user, points, now);
            &&& after.listed(user) == (t.listed(user) || !full || points
                >= c.at[m->0].points_at(now))
            &&& after.listed(other) == (t.listed(other) && (t.listed(user) || !full || points
                < c.at[m->0].points_at(now) || !c.holds(other, m->0)))
        }),
{
    let c = t.consistent(now);
    let after = t.updated(user, points, now);
    if !t.dense() {
        lemma_repaired(t, now);
    }
    assert(c.wf() && c.dense());
    assert(c.listed(user) == t.listed(user) && c.listed(other) == t.listed(other));
    lemma_weakest_taken(c.at, c.len() as nat, now);
    match c.place(user) {
        Some(i) => {
            assert(c.holds(user, i));
            let e = PlayerEntry { points, epoch: now, ..c.at[i] };
            lemma_put_in_place(c, i, e);
            lemma_put_listed(c, i, e, user);
            lemma_put_listed(c, i, e, other);
            let p = c.put(i, e);
            assert(p.at.dom().contains(i));
            lemma_risen(p, i, MAX_BUBBLE_STEPS as nat, now);
            lemma_risen_listed(p, i, MAX_BUBBLE_STEPS as nat, now, user);
            lemma_risen_listed(p, i, MAX_BUBBLE_STEPS as nat, now, other);
            let r = p.risen(i, MAX_BUBBLE_STEPS as nat, now);
            lemma_with_min(r, now);
            lemma_same_at_same_listed(r, r.with_min(now), user);
            lemma_same_at_same_listed(r, r.with_min(now), other);
        },
        None => if c.len() < MAX_TOP_PLAYERS {
            let n = c.len();
            let e = c.newcomer(user, points, now);
            lemma_put_behind(c, e);
            let grown = Top {
                count: Some((n + 1) as u32),
                seq_counter: Some((c.next() + 1) as u64),
                ..c
            };
            let p = grown.put(n, e);
            lemma_grown_put(c, n, e, user);
            lemma_grown_put(c, n, e, other);
            lemma_same_at_same_listed(p, c.put(n, e), user);
            lemma_same_at_same_listed(p, c.put(n, e), other);
            assert(p.at.dom().contains(n));
            lemma_risen(p, n, MAX_BUBBLE_STEPS as nat, now);
            lemma_risen_listed(p, n, MAX_BUBBLE_STEPS as nat, now, user);
            lemma_risen_listed(p, n, MAX_BUBBLE_STEPS as nat, now, other);
            let r = p.risen(n, MAX_BUBBLE_STEPS as nat, now);
            lemma_with_min(r, now);
            lemma_same_at_same_listed(r, r.with_min(now), user);
            lemma_same_at_same_listed(r, r.with_min(now), other);
        } else {
            let f = Top { slot: c.slot.remove(user), ..c };
            lemma_forget(c, user);
            let g = f.with_min(now);
            lemma_with_min(f, now);
            lemma_same_at_same_listed(c, g, user);
            lemma_same_at_same_listed(c, g, other);
            assert(c.at.dom().contains(0u32));
            let m = g.least_slot();
            assert(Some(m) == weakest(c.at, c.len() as nat, now));
            if points >= g.at[m].points_at(now) {
                let e = g.newcomer(user, points, now);
                lemma_put_instead(g, m, e);
                let base = Top {
                    seq_counter: Some((g.next() + 1) as u64),
                    slot: g.slot.remove(g.at[m].address),
                    ..g
                };
                let p = base.put(m, e);
                lemma_put_listed(g, m, e, user);
                lemma_put_listed(g, m, e, other);
                lemma_same_at_same_listed(p, g.put(m, e), user);
                lemma_same_at_same_listed(p, g.put(m, e), other);
                assert(p.at.dom().contains(m));
                lemma_risen(p, m, MAX_BUBBLE_STEPS as nat, now);
                lemma_risen_listed(p, m, MAX_BUBBLE_STEPS as nat, now, user);
                lemma_risen_listed(p, m, MAX_BUBBLE_STEPS as nat, now, other);
                let r = p.risen(m, MAX_BUBBLE_STEPS as nat, now);
                lemma_with_min(r, now);
                lemma_same_at_same_listed(r, r.with_min(now), user);
                lemma_same_at_same_listed(r, r.with_min(now), other);
            }
        },
    }
}

proof fn lemma_grown_put(c: Top, n: u32, e: PlayerEntry, user: Address)
    requires
        c.wf(),
        n == c.len(),
    ensures
        c.put(n, e).listed(user) == (user == e.address || c.listed(user)),
{
    lemma_put_listed(c, n, e, user);
    if c.holds(user, n) {
        assert(c.at.dom().contains(n));
    }
}

/// Nobody listed is weaker than the first to leave, and among those with the
/// same score nobody has been listed longer.
pub proof fn law_first_to_leave_is_oldest_of_the_weakest(t: Top, now: u32, slot: u32)
    requires
        t.wf(),
        t.at.dom().contains(slot),
    ensures
        weakest(t.at, t.len() as nat, now) matches Some(m) && {
            &&& t.at[m].points_at(now) <= t.at[slot].points_at(now)
            &&& t.at[m].points_at(now) == t.at[slot].points_at(now) ==> t.at[m].seq
                <= t.at[slot].seq
        },
{
    lemma_weakest_leaves_first(t.at, t.len() as nat, now, slot);
}

/// Once a list is full, scoring leaves behind a correct note of who leaves
/// first.
pub proof fn law_full_list_knows_its_weakest(t: Top, user: Address, points: u64, now: u32)
    requires
        t.wf(),
        t.can_update(user, points, now),
        t.updated(user, points, now).len() == MAX_TOP_PLAYERS,
    ensures
        ({
            let after = t.updated(user, points, now);
            &&& weakest(after.at, after.len() as nat, now) == Some(after.least_slot())
            &&& after.min_points == Some(after.at[after.least_slot()].points_at(now))
        }),
{
    crate::leaderboard::top_proofs::lemma_updated(t, user, points, now);
    let after = t.updated(user, points, now);
    let c = t.consistent(now);
    if !t.dense() {
        lemma_repaired(t, now);
    }
    lemma_weakest_taken(after.at, after.len() as nat, now);
    assert(after.at.dom().contains(0u32));
    match c.place(user) {
        Some(i) => {
            assert(c.holds(user, i));
            let e = PlayerEntry { points, epoch: now, ..c.at[i] };
            lemma_put_in_place(c, i, e);
            let r = c.put(i, e).risen(i, MAX_BUBBLE_STEPS as nat, now);
            assert(c.put(i, e).at.dom().contains(i));
            lemma_risen(c.put(i, e), i, MAX_BUBBLE_STEPS as nat, now);
            lemma_with_min(r, now);
        },
        None => if c.len() < MAX_TOP_PLAYERS {
            let n = c.len();
            let e = c.newcomer(user, points, now);
            lemma_put_behind(c, e);
            let p = Top {
                count: Some((n + 1) as u32),
                seq_counter: Some((c.next() + 1) as u64),
                ..c
            }.put(n, e);
            assert(p.at.dom().contains(n));
            lemma_risen(p, n, MAX_BUBBLE_STEPS as nat, now);
            lemma_with_min(p.risen(n, MAX_BUBBLE_STEPS as nat, now), now);
        } else {
            let f = Top { slot: c.slot.remove(user), ..c };
            lemma_forget(c, user);
            lemma_with_min(f, now);
            let g = f.with_min(now);
            lemma_weakest_taken(c.at, c.len() as nat, now);
            assert(c.at.dom().contains(0u32));
            let m = g.least_slot();
            if points >= g.at[m].points_at(now) {
                let e = g.newcomer(user, points, now);
                lemma_same_at_same_listed(c, g, user);
                lemma_put_instead(g, m, e);
                let p = Top {
                    seq_counter: Some((g.next() + 1) as u64),
                    slot: g.slot.remove(g.at[m].address),
                    ..g
                }.put(m, e);
                assert(p.at.dom().contains(m));
                lemma_risen(p, m, MAX_BUBBLE_STEPS as nat, now);
                lemma_with_min(p.risen(m, MAX_BUBBLE_STEPS as nat, now), now);
            }
        },
    }
}

/// Taking points away neither lists nor unlists anybody.
pub proof fn law_penalty_keeps_the_list(
    t: Top,
    user: Address,
    points: u64,
    now: u32,
    other: Address,
)
    requires
        t.wf(),
    ensures
        t.lowered(user, points, now).listed(other) == t.listed(other),
        t.lowered(user, points, now).len() == t.len(),
{
    match t.place(user) {
        Some(i) => {
            assert(t.holds(user, i));
            let e = PlayerEntry { points, epoch: now, ..t.at[i] };
            lemma_put_in_place(t, i, e);
            lemma_put_listed(t, i, e, other);
            lemma_with_min(t.put(i, e), now);
            lemma_same_at_same_listed(t.put(i, e), t.put(i, e).with_min(now), other);
            if t.holds(other, i) {
                assert(other == user);
            }
        },
        None => {
            lemma_same_at_same_listed(t, t.looked_up(user), other);
        },
    }
}

/// Repairing keeps everybody who could still be found, closes every gap, and
/// notes for everybody the slot they hold.
pub proof fn law_repair_restores_the_index(t: Top, now: u32, user: Address)
    requires
        t.wf(),
    ensures
        ({
            let r = t.repaired(now);
            &&& r.dense()
            &&& r.listed(user) == t.listed(user)
            &&& r.place(user) matches Some(i) ==> find(r.slot, user) == Some(i)
        }),
{
    lemma_repaired(t, now);
    let r = t.repaired(now);
    if let Some(i) = r.place(user) {
        assert(r.holds(user, i));
        let list = t.list();
        crate::leaderboard::top_proofs::lemma_found(t, t.len() as nat);
        crate::leaderboard::top_proofs::lemma_noted(t.slot, list, i as int);
        let u = Top {
            count: Some(list.len() as u32),
            at: crate::leaderboard::top_model::slots(list),
            slot: crate::leaderboard::top_model::noted(t.slot, list),
            ..t
        };
        assert(r == u.with_min(now));
        assert(r.slot == u.slot);
    }
}

/// A dropped player is off the list; everybody else is as listed as before.
pub proof fn law_dropping_takes_exactly_one(t: Top, user: Address, now: u32, other: Address)
    requires
        t.wf(),
        other != user,
    ensures
        !t.dropped(user, now).listed(user),
        t.dropped(user, now).listed(other) == t.listed(other),
{
    lemma_looked_up(t, user);
    let u = t.looked_up(user);
    lemma_same_at_same_listed(t, u, user);
    lemma_same_at_same_listed(t, u, other);
    if let Some(i) = t.place(user) {
        assert(t.holds(user, i));
        let c = u.cleared(i);
        lemma_cleared(u, i);
        lemma_repaired(c, now);
        assert forall|j: u32| c.holds(user, j) implies false by {
            assert(u.at.dom().contains(j) && u.at.dom().contains(i));
        }
        assert(!c.listed(user));
        assert(t.dropped(user, now) == c.repaired(now));
        if u.listed(other) {
            let j = choose|j: u32| u.holds(other, j);
            assert(c.holds(other, j));
        }
        if c.listed(other) {
            let j = choose|j: u32| c.holds(other, j);
            assert(u.holds(other, j));
        }
    }
}

/// Any call that can change the leaderboard's state.
pub enum LeaderboardCall {
    Initialize { admin: Address, market: Address, referral: Address },
    SetToken { admin: Address, token: Address },
    SetInterfaceVersion { admin: Address, version: u32 },
    SetPaused { admin: Address, paused: bool },
    RevokeTrust { admin: Address, role: Seq<char> },
    RestoreTrust { admin: Address, role: Seq<char> },
    Reward {
        caller: Address,
        user: Address,
        points: u64,
        tokens: i128,
        is_winner: bool,
        token_version: Option<u32>,
    },
    AddPts { caller: Address, user: Address, pts: u64, is_won: bool },
    Penalize { caller: Address, user: Address, points: u64 },
    QueueReward {
        caller: Address,
        user: Address,
        points: u64,
        tokens: i128,
        is_winner: bool,
    },
    QueueBonusReward { caller: Address, user: Address, points: u64, tokens: i128 },
    ClaimPendingRewards { user: Address, token_version: Option<u32> },
    RewardBonus { caller: Address, user: Address, pts: u64, tokens: i128, token_version: Option<u32> },
    RecordBet { caller: Address },
    RemovePlayer { admin: Address, user: Address },
    BanPlayer { admin: Address, user: Address },
    ResetPlayer { admin: Address, user: Address },
}

impl LeaderboardState {
    pub open spec fn run(self, ledger: Ledger, call: LeaderboardCall) -> Verdict {
        match call {
            LeaderboardCall::Initialize { admin, market, referral } => self.initialize(
                admin,
                market,
                referral,
            ),
            LeaderboardCall::SetToken { admin, token } => self.set_token(admin, token),
            LeaderboardCall::SetInterfaceVersion { admin, version } => self.set_interface_version(
                admin,
                version,
            ),
            LeaderboardCall::SetPaused { admin, paused } => self.set_paused(admin, paused),
            LeaderboardCall::RevokeTrust { admin, role } => self.revoke_trust(admin, role),
            LeaderboardCall::RestoreTrust { admin, role } => self.restore_trust(admin, role),
            LeaderboardCall::Reward {
                caller,
                user,
                points,
                tokens,
                is_winner,
                token_version,
            } => self.reward(ledger, caller, user, points, tokens, is_winner, token_version),
            LeaderboardCall::AddPts { caller, user, pts, is_won } => self.add_pts(
                ledger,
                caller,
                user,
                pts,
                is_won,
            ),
            LeaderboardCall::Penalize { caller, user, points } => self.penalize(
                ledger,
                caller,
                user,
                points,
            ),
            LeaderboardCall::QueueReward { caller, user, points, tokens, is_winner }
                => self.queue_reward(caller, user, points, tokens, is_winner),
            LeaderboardCall::QueueBonusReward { caller, user, points, tokens }
                => self.queue_bonus_reward(caller, user, points, tokens),
            LeaderboardCall::ClaimPendingRewards { user, token_version }
                => self.claim_pending_rewards(ledger, user, token_version),
            LeaderboardCall::RewardBonus { caller, user, pts, tokens, token_version }
                => self.settle_bonus(ledger, caller, user, pts, tokens, token_version),
            LeaderboardCall::RecordBet { caller } => self.record_bet(caller),
            LeaderboardCall::RemovePlayer { admin, user } => self.remove_player(
                ledger,
                admin,
                user,
            ),
            LeaderboardCall::BanPlayer { admin, user } => self.ban_player(ledger, admin, user),
            LeaderboardCall::ResetPlayer { admin, user } => self.reset_player(
                ledger,
                admin,
                user,
            ),
        }
    }

    /// The same state, except that the player was never banned.
    pub open spec fn without_ban(self, user: Address) -> LeaderboardState {
        LeaderboardState { banned: self.banned.remove(user), ..self }
    }

    /// The state after a call, whether it succeeded or was refused.
    pub open spec fn after(self, ledger: Ledger, call: LeaderboardCall) -> LeaderboardState {
        match self.run(ledger, call) {
            Ok(outcome) => outcome.state,
            Err(_) => self,
        }
    }
}

/// The player that a scoring call is about.
pub open spec fn scores_for(call: LeaderboardCall) -> Option<Address> {
    match call {
        LeaderboardCall::Reward { user, .. } => Some(user),
        LeaderboardCall::AddPts { user, .. } => Some(user),
        LeaderboardCall::Penalize { user, .. } => Some(user),
        LeaderboardCall::QueueReward { user, .. } => Some(user),
        LeaderboardCall::QueueBonusReward { user, .. } => Some(user),
        LeaderboardCall::ClaimPendingRewards { user, .. } => Some(user),
        LeaderboardCall::RewardBonus { user, .. } => Some(user),
        _ => None,
    }
}

/// A call that scores for somebody concerns nobody's ban and no trust.
proof fn lemma_scoring_leaves_rights(s: LeaderboardState, ledger: Ledger, call: LeaderboardCall)
    requires
        scores_for(call) is Some,
    ensures
        s.after(ledger, call).banned == s.banned,
        s.after(ledger, call).revoked == s.revoked,
{
}

/// Whatever else is against it, a ban is.
proof fn lemma_ban_refuses(
    s: LeaderboardState,
    ledger: Ledger,
    call: LeaderboardCall,
    user: Address,
)
    requires
        s.is_banned(user),
        scores_for(call) == Some(user),
    ensures
        s.run(ledger, call) is Err,
        s.without_ban(user).run(ledger, call) is Ok ==> s.run(ledger, call) == Err::<
            Done,
            LeaderboardError,
        >(LeaderboardError::PlayerBanned),
{
}

/// A ban is permanent, and every call that would score for a banned player is
/// refused: as banned, wherever the call would go through without the ban.
pub proof fn law_bans_hold(
    s: LeaderboardState,
    ledger: Ledger,
    call: LeaderboardCall,
    user: Address,
)
    requires
        s.is_banned(user),
    ensures
        s.after(ledger, call).is_banned(user),
        scores_for(call) == Some(user) ==> s.run(ledger, call) is Err,
        scores_for(call) == Some(user) && s.without_ban(user).run(ledger, call) is Ok ==> s.run(
            ledger,
            call,
        ) == Err::<Done, LeaderboardError>(LeaderboardError::PlayerBanned),
{
    if scores_for(call) is Some {
        lemma_scoring_leaves_rights(s, ledger, call);
    }
    if scores_for(call) == Some(user) {
        lemma_ban_refuses(s, ledger, call, user);
    }
}

/// While the leaderboard is paused, nothing is scored for anybody, and only
/// the admin can end the pause.
pub proof fn law_pause_halts_scoring(s: LeaderboardState, ledger: Ledger, call: LeaderboardCall)
    requires
        s.is_paused(),
    ensures
        scores_for(call) is Some ==> s.run(ledger, call) == Err::<Done, LeaderboardError>(
            LeaderboardError::ContractPaused,
        ),
        !s.after(ledger, call).is_paused() ==> (call matches LeaderboardCall::SetPaused {
            admin,
            paused,
        } && s.admin == Some(admin) && !paused),
{
}

/// A revoked role stays revoked, whatever is reconfigured, until the admin
/// restores that very role.
pub proof fn law_revocation_holds(
    s: LeaderboardState,
    ledger: Ledger,
    call: LeaderboardCall,
    role: Role,
)
    requires
        s.is_revoked(role),
    ensures
        !s.after(ledger, call).is_revoked(role) ==> (call matches LeaderboardCall::RestoreTrust {
            admin,
            role: symbol,
        } && s.admin == Some(admin) && role_named(symbol) == Some(role)),
{
    if scores_for(call) is Some {
        lemma_scoring_leaves_rights(s, ledger, call);
    }
}

/// Everything that relies on a revoked role is refused.
pub proof fn law_revoked_callers_are_refused(
    s: LeaderboardState,
    ledger: Ledger,
    call: LeaderboardCall,
)
    ensures
        s.is_revoked(Role::Market) && (call is Reward || call is AddPts || call is Penalize
            || call is QueueReward || call is RecordBet) ==> s.run(ledger, call) is Err,
        s.is_revoked(Role::Referral) && (call is RewardBonus || call is QueueBonusReward)
            ==> s.run(ledger, call) is Err,
{
}

/// While the trust in the token contract is revoked, nothing is minted.
pub proof fn law_revoked_token_mints_nothing(
    s: LeaderboardState,
    ledger: Ledger,
    call: LeaderboardCall,
    user: Address,
)
    requires
        s.is_revoked(Role::Token),
    ensures
        s.run(ledger, call) matches Ok(o) ==> mints(o.effects, user) == 0,
{
    lemma_call_mints(s, ledger, call, user);
}

/// What a list of requests to the host mints to a player.
pub open spec fn mints(effects: Seq<Effect>, user: Address) -> int
    decreases effects.len(),
{
    if effects.len() == 0 {
        0
    } else {
        mints(effects.drop_last(), user) + (match effects.last() {
            Effect::Mint { to, amount, .. } => if to == user {
                amount as int
            } else {
                0
            },
            _ => 0,
        })
    }
}

proof fn lemma_mints_join(a: Seq<Effect>, b: Seq<Effect>, user: Address)
    ensures
        mints(a + b, user) == mints(a, user) + mints(b, user),
    decreases b.len(),
{
    if b.len() == 0 {
        assert(a + b =~= a);
    } else {
        assert((a + b).drop_last() =~= a + b.drop_last());
        lemma_mints_join(a, b.drop_last(), user);
    }
}

proof fn lemma_mints_one(e: Effect, user: Address)
    ensures
        mints(seq![e], user) == (match e {
            Effect::Mint { to, amount, .. } => if to == user {
                amount as int
            } else {
                0
            },
            _ => 0,
        }),
{
    assert(seq![e].drop_last() =~= Seq::empty());
    assert(mints(Seq::<Effect>::empty(), user) == 0);
}

proof fn lemma_mints_none(a: Effect, b: Effect, user: Address)
    requires
        !(a is Mint),
        !(b is Mint),
    ensures
        mints(seq![a, b], user) == 0,
{
    assert(seq![a, b] =~= seq![a] + seq![b]);
    lemma_mints_join(seq![a], seq![b], user);
    lemma_mints_one(a, user);
    lemma_mints_one(b, user);
}

/// The player and the amount that a call mints if it succeeds.
pub open spec fn mint_of(s: LeaderboardState, call: LeaderboardCall) -> (Address, int) {
    match call {
        LeaderboardCall::Reward { user, tokens, .. } => (user, tokens as int),
        LeaderboardCall::RewardBonus { user, tokens, .. } => (user, tokens as int),
        LeaderboardCall::ClaimPendingRewards { user, .. } => (
            user,
            if s.pending.dom().contains(user) {
                s.pending[user].tokens as int
            } else {
                0
            },
        ),
        _ => (Address { id: 0 }, 0),
    }
}

proof fn lemma_minting(s: LeaderboardState, to: Address, tokens: i128, user: Address)
    requires
        tokens > 0 ==> s.token_contract is Some,
    ensures
        mints(s.minting(to, tokens), user) == (if tokens > 0 && to == user {
            tokens as int
        } else {
            0
        }),
{
    if tokens > 0 {
        lemma_mints_one(s.minting(to, tokens)[0], user);
        assert(s.minting(to, tokens) =~= seq![s.minting(to, tokens)[0]]);
    } else {
        assert(mints(Seq::<Effect>::empty(), user) == 0);
    }
}

proof fn lemma_scoring_mints(
    s: LeaderboardState,
    a: Effect,
    b: Effect,
    to: Address,
    tokens: i128,
    user: Address,
)
    requires
        !(a is Mint),
        !(b is Mint),
        tokens > 0 ==> s.token_contract is Some,
    ensures
        mints(seq![a, b] + s.minting(to, tokens), user) == (if tokens > 0 && to == user {
            tokens as int
        } else {
            0
        }),
{
    lemma_mints_none(a, b, user);
    lemma_mints_join(seq![a, b], s.minting(to, tokens), user);
    lemma_minting(s, to, tokens, user);
}

/// A call that succeeds mints what `mint_of` says and nothing else.
pub open spec fn mints_as_expected(
    s: LeaderboardState,
    ledger: Ledger,
    call: LeaderboardCall,
    user: Address,
) -> bool {
    let (to, tokens) = mint_of(s, call);
    s.run(ledger, call) matches Ok(o) ==> {
        &&& mints(o.effects, user) == (if tokens > 0 && to == user {
            tokens
        } else {
            0
        })
        &&& tokens > 0 ==> !s.is_revoked(Role::Token)
    }
}

proof fn lemma_bet_mints(
    s: LeaderboardState,
    ledger: Ledger,
    caller: Address,
    to: Address,
    points: u64,
    tokens: i128,
    is_won: bool,
    token_version: Option<u32>,
    user: Address,
)
    ensures
        s.settle_bet(ledger, caller, to, points, tokens, is_won, token_version) matches Ok(o)
            ==> mints(o.effects, user) == (if tokens > 0 && to == user {
            tokens as int
        } else {
            0
        }),
{
    if let Ok(o) = s.settle_bet(ledger, caller, to, points, tokens, is_won, token_version) {
        let e = o.effects;
        lemma_scoring_mints(s, e[0], e[1], to, tokens, user);
        assert(e =~= seq![e[0], e[1]] + s.minting(to, tokens));
    }
}

proof fn lemma_bonus_mints(
    s: LeaderboardState,
    ledger: Ledger,
    caller: Address,
    to: Address,
    points: u64,
    tokens: i128,
    token_version: Option<u32>,
    user: Address,
)
    ensures
        s.settle_bonus(ledger, caller, to, points, tokens, token_version) matches Ok(o) ==> mints(
            o.effects,
            user,
        ) == (if tokens > 0 && to == user {
            tokens as int
        } else {
            0
        }),
{
    if let Ok(o) = s.settle_bonus(ledger, caller, to, points, tokens, token_version) {
        let e = o.effects;
        lemma_scoring_mints(s, e[0], e[1], to, tokens, user);
        assert(e =~= seq![e[0], e[1]] + s.minting(to, tokens));
    }
}

proof fn lemma_claim_mints(
    s: LeaderboardState,
    ledger: Ledger,
    to: Address,
    token_version: Option<u32>,
    user: Address,
)
    ensures
        mints_as_expected(
            s,
            ledger,
            LeaderboardCall::ClaimPendingRewards { user: to, token_version },
            user,
        ),
{
    if let Ok(o) = s.claim_pending_rewards(ledger, to, token_version) {
        if s.pending.dom().contains(to) {
            lemma_minting(s, to, s.pending[to].tokens, user);
        } else {
            lemma_minting(s, to, 0, user);
            assert(o.effects =~= s.minting(to, 0));
        }
    }
}

proof fn lemma_quiet(e: Seq<Effect>, user: Address)
    requires
        e.len() <= 2,
        forall|i: int| 0 <= i < e.len() ==> !(#[trigger] e[i] is Mint),
    ensures
        mints(e, user) == 0,
{
    if e.len() == 2 {
        lemma_mints_none(e[0], e[1], user);
        assert(e =~= seq![e[0], e[1]]);
    } else if e.len() == 1 {
        lemma_mints_one(e[0], user);
        assert(e =~= seq![e[0]]);
    }
}

proof fn lemma_call_mints(
    s: LeaderboardState,
    ledger: Ledger,
    call: LeaderboardCall,
    user: Address,
)
    ensures
        mints_as_expected(s, ledger, call, user),
{
    match call {
        LeaderboardCall::Reward { caller, user: to, points, tokens, is_winner, token_version }
            => {
            lemma_bet_mints(
                s,
                ledger,
                caller,
                to,
                points,
                tokens,
                is_winner,
                token_version,
                user,
            );
        },
        LeaderboardCall::RewardBonus { caller, user: to, pts, tokens, token_version } => {
            lemma_bonus_mints(s, ledger, caller, to, pts, tokens, token_version, user);
        },
        LeaderboardCall::AddPts { caller, user: to, pts, is_won } => {
            lemma_bet_mints(s, ledger, caller, to, pts, 0, is_won, None, user);
        },
        LeaderboardCall::ClaimPendingRewards { user: to, token_version } => {
            lemma_claim_mints(s, ledger, to, token_version, user);
        },
        LeaderboardCall::Initialize { admin, market, referral } => {
            if let Ok(o) = s.initialize(admin, market, referral) {
                lemma_quiet(o.effects, user);
            }
        },
        LeaderboardCall::SetToken { admin, token } => {
            if let Ok(o) = s.set_token(admin, token) {
                lemma_quiet(o.effects, user);
            }
        },
        LeaderboardCall::SetInterfaceVersion { admin, version } => {
            if let Ok(o) = s.set_interface_version(admin, version) {
                lemma_quiet(o.effects, user);
            }
        },
        LeaderboardCall::SetPaused { admin, paused } => {
            if let Ok(o) = s.set_paused(admin, paused) {
                lemma_quiet(o.effects, user);
            }
        },
        LeaderboardCall::RevokeTrust { admin, role } => {
            if let Ok(o) = s.revoke_trust(admin, role) {
                lemma_quiet(o.effects, user);
            }
        },
        LeaderboardCall::RestoreTrust { admin, role } => {
            if let Ok(o) = s.restore_trust(admin, role) {
                lemma_quiet(o.effects, user);
            }
        },
        LeaderboardCall::Penalize { caller, user: u, points } => {
            if let Ok(o) = s.penalize(ledger, caller, u, points) {
                lemma_quiet(o.effects, user);
            }
        },
        LeaderboardCall::QueueReward { caller, user: u, points, tokens, is_winner } => {
            if let Ok(o) = s.queue_reward(caller, u, points, tokens, is_winner) {
                lemma_quiet(o.effects, user);
            }
        },
        LeaderboardCall::QueueBonusReward { caller, user: u, points, tokens } => {
            if let Ok(o) = s.queue_bonus_reward(caller, u, points, tokens) {
                lemma_quiet(o.effects, user);
            }
        },
        LeaderboardCall::RecordBet { caller } => {
            if let Ok(o) = s.record_bet(caller) {
                lemma_quiet(o.effects, user);
            }
        },
        LeaderboardCall::RemovePlayer { admin, user: u } => {
            if let Ok(o) = s.remove_player(ledger, admin, u) {
                lemma_quiet(o.effects, user);
            }
        },
        LeaderboardCall::BanPlayer { admin, user: u } => {
            if let Ok(o) = s.ban_player(ledger, admin, u) {
                lemma_quiet(o.effects, user);
            }
        },
        LeaderboardCall::ResetPlayer { admin, user: u } => {
            if let Ok(o) = s.reset_player(ledger, admin, u) {
                lemma_quiet(o.effects, user);
            }
        },
    }
}

/// The tally of a player grows by exactly what a call has minted to them.
pub proof fn law_tally_follows_mints(
    s: LeaderboardState,
    ledger: Ledger,
    call: LeaderboardCall,
    user: Address,
)
    requires
        mint_of(s, call).0 == user ==> s.minted_to(user) + mint_of(s, call).1 <= i128::MAX,
    ensures
        s.run(ledger, call) matches Ok(o) ==> o.state.minted_to(user) == s.minted_to(user)
            + mints(o.effects, user),
{
    lemma_call_mints(s, ledger, call, user);
}

/// Scoring a bet without tokens is the same through either entry point, except
/// that a reward without points is refused while a bet can be scored without
/// any. Neither mints anything, and where the counters have room each adds
/// exactly the points and the win or loss.
pub proof fn law_add_pts_is_reward_without_tokens(
    s: LeaderboardState,
    ledger: Ledger,
    caller: Address,
    user: Address,
    points: u64,
    is_won: bool,
    token_version: Option<u32>,
    other: Address,
)
    ensures
        ({
            let scored = s.add_pts(ledger, caller, user, points, is_won);
            let rewarded = s.reward(ledger, caller, user, points, 0, is_won, token_version);
            let allowed = s.market_refusal(caller) is None;
            &&& points > 0 ==> scored == rewarded
            &&& points == 0 && allowed ==> rewarded == Err::<Done, LeaderboardError>(
                LeaderboardError::InvalidPoints,
            )
            &&& scored is Ok == (allowed && !s.is_banned(user))
            &&& scored matches Ok(o) ==> mints(o.effects, other) == 0 && o.state.minted == s.minted
            &&& rewarded matches Ok(o) ==> mints(o.effects, other) == 0 && o.state.minted
                == s.minted
            &&& scored matches Ok(o) ==> s.can_gain(
                user,
                epoch_of(ledger.sequence),
                bet_gain(points, is_won),
            ) ==> {
                let now = epoch_of(ledger.sequence);
                let before = s.current(user, now);
                let after = o.state.current(user, now);
                &&& after.points == before.points + points
                &&& after.won_bets == before.won_bets + if is_won {
                    1int
                } else {
                    0
                }
                &&& after.lost_bets == before.lost_bets + if is_won {
                    0int
                } else {
                    1
                }
                &&& after.bonus_bets == before.bonus_bets
            }
        }),
{
    lemma_bet_mints(s, ledger, caller, user, points, 0, is_won, None, other);
    lemma_bet_mints(s, ledger, caller, user, points, 0, is_won, token_version, other);
}

/// Claiming a queue adds exactly what was queued to the player's record, mints
/// the queued tokens in one go if there are any, and touches nobody else. It
/// goes through unless the leaderboard is paused, the player banned or the
/// tokens cannot be minted, and is refused without any change otherwise. What is
/// said of the numbers holds where the counters have room for them.
pub proof fn law_claim_pays_the_queue(
    s: LeaderboardState,
    ledger: Ledger,
    user: Address,
    token_version: Option<u32>,
    other: Address,
)
    requires
        s.wf(),
        s.pending.dom().contains(user),
        other != user,
    ensures
        ({
            let p = s.pending[user];
            let now = epoch_of(ledger.sequence);
            let r = s.claim_pending_rewards(ledger, user, token_version);
            &&& r is Ok == (!s.is_paused() && !s.is_banned(user) && s.mint_refusal(
                p.tokens,
                token_version,
            ) is None)
            &&& r is Err ==> s.after(
                ledger,
                LeaderboardCall::ClaimPendingRewards { user, token_version },
            ) == s
            &&& r matches Ok(o) ==> s.can_gain(user, now, claim_gain(p)) ==> {
                let before = s.current(user, now);
                let after = o.state.current(user, now);
                &&& after.points == before.points + p.points
                &&& after.won_bets == before.won_bets + p.won_delta
                &&& after.lost_bets == before.lost_bets + p.lost_delta
                &&& after.total() == before.total() + p.bet_delta
            }
            &&& r matches Ok(o) ==> s.can_mint(user, p.tokens) ==> o.state.minted_to(user)
                == s.minted_to(user) + if p.tokens > 0 {
                p.tokens as int
            } else {
                0
            }
            &&& r matches Ok(o) ==> {
                &&& p.tokens > 0 ==> o.effects == seq![
                    Effect::Mint { token: s.token_contract->0, to: user, amount: p.tokens },
                ]
                &&& p.tokens <= 0 ==> o.effects.len() == 0
                &&& o.state.pending == s.pending.remove(user)
                &&& o.state.current(other, now) == s.current(other, now)
                &&& o.state.minted_to(other) == s.minted_to(other)
            }
        }),
{
}

/// A queue is claimed once: afterwards nothing is queued, and claiming again
/// does nothing.
pub proof fn law_queue_is_claimed_once(
    s: LeaderboardState,
    ledger: Ledger,
    later: Ledger,
    user: Address,
    token_version: Option<u32>,
    later_version: Option<u32>,
)
    ensures
        s.claim_pending_rewards(ledger, user, token_version) matches Ok(o) ==> {
            &&& !o.state.pending.dom().contains(user)
            &&& o.state.claim_pending_rewards(later, user, later_version) matches Ok(p)
                && p.state == o.state && p.effects.len() == 0
        },
{
}

/// A refused claim leaves everything in place.
pub proof fn law_refused_claim_loses_nothing(
    s: LeaderboardState,
    ledger: Ledger,
    user: Address,
    token_version: Option<u32>,
)
    requires
        s.claim_pending_rewards(ledger, user, token_version) is Err,
    ensures
        s.after(ledger, LeaderboardCall::ClaimPendingRewards { user, token_version }) == s,
{
}

/// A reset takes the points and keeps the counts; a removal leaves no record.
pub proof fn law_reset_and_removal(
    s: LeaderboardState,
    ledger: Ledger,
    admin: Address,
    user: Address,
    now: u32,
)
    requires
        s.wf(),
    ensures
        s.reset_player(ledger, admin, user) matches Ok(o) ==> {
            &&& o.state.points(user, now) == 0
            &&& o.state.stored(user).won_bets == s.stored(user).won_bets
            &&& o.state.stored(user).lost_bets == s.stored(user).lost_bets
            &&& o.state.stored(user).bonus_bets == s.stored(user).bonus_bets
            &&& !o.state.top.listed(user)
        },
        s.remove_player(ledger, admin, user) matches Ok(o) ==> {
            &&& o.state.stored(user) == crate::leaderboard::types::StoredStats::nothing()
            &&& !o.state.pending.dom().contains(user)
            &&& !o.state.top.listed(user)
        },
{
    let other = Address { id: if user.id == 0 { 1 } else { 0 } };
    law_dropping_takes_exactly_one(s.top, user, epoch_of(ledger.sequence), other);
    crate::leaderboard::decay::lemma_faded_bounds(
        0,
        crate::leaderboard::decay::periods_since(epoch_of(ledger.sequence), now) as nat,
    );
}

} // verus!
