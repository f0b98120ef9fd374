//! The top list as readers see it: ranked on the scores of the moment.
use crate::leaderboard::decay::entry_points_now;
use crate::leaderboard::top_model::{found, Top, TopList};
use crate::leaderboard::types::{PlayerEntry, MAX_PAGE_SIZE, MAX_TOP_PLAYERS};
use vstd::prelude::*;

verus! {

/// An entry with its score brought forward to epoch `now`.
pub open spec fn brought_forward(e: PlayerEntry, now: u32) -> PlayerEntry {
    PlayerEntry { points: e.points_at(now), epoch: now, ..e }
}

/// The listed players in slot order with their scores of epoch `now`.
pub open spec fn standings(t: Top, now: u32) -> Seq<PlayerEntry> {
    t.list().map_values(|e: PlayerEntry| brought_forward(e, now))
}

/// The first position in `from..to` with the highest score.
pub open spec fn leader(s: Seq<PlayerEntry>, from: int, to: int) -> int
    decreases to - from,
{
    if to <= from + 1 {
        from
    } else {
        let before = leader(s, from, to - 1);
        if s[to - 1].points > s[before].points {
            to - 1
        } else {
            before
        }
    }
}

/// `s` with two players in each other's place.
pub open spec fn exchanged(s: Seq<PlayerEntry>, i: int, j: int) -> Seq<PlayerEntry> {
    Seq::new(
        s.len(),
        |k: int|
            if k == i {
                s[j]
            } else if k == j {
                s[i]
            } else {
                s[k]
            },
    )
}

/// `s` with the leader of what remains brought to each position from `i` on.
pub open spec fn ranked_from(s: Seq<PlayerEntry>, i: int) -> Seq<PlayerEntry>
    decreases s.len() - i,
{
    if i >= s.len() {
        s
    } else {
        ranked_from(exchanged(s, i, leader(s, i, s.len() as int)), i + 1)
    }
}

/// The listed players by rank in epoch `now`.
pub open spec fn ranking(t: Top, now: u32) -> Seq<PlayerEntry> {
    ranked_from(standings(t, now), 0)
}

/// At most `limit` players of `s` from `offset` on.
pub open spec fn window(s: Seq<PlayerEntry>, offset: int, limit: int) -> Seq<PlayerEntry> {
    let end = if offset + limit < s.len() {
        offset + limit
    } else {
        s.len() as int
    };
    if offset >= end {
        Seq::empty()
    } else {
        s.subrange(offset, end)
    }
}

/// What a request for a page returns.
pub open spec fn page(t: Top, now: u32, offset: u32, page_size: u32) -> Seq<PlayerEntry> {
    window(
        ranking(t, now),
        offset as int,
        if page_size < MAX_PAGE_SIZE {
            page_size as int
        } else {
            MAX_PAGE_SIZE as int
        },
    )
}

proof fn lemma_leader(s: Seq<PlayerEntry>, from: int, to: int)
    requires
        0 <= from < to <= s.len(),
    ensures
        from <= leader(s, from, to) < to,
        forall|k: int| from <= k < to ==> (#[trigger] s[k]).points <= s[leader(s, from, to)].points,
    decreases to - from,
{
    if to > from + 1 {
        lemma_leader(s, from, to - 1);
    }
}

/// No more players are found than slots are looked at.
proof fn lemma_found_bound(at: Map<u32, PlayerEntry>, n: nat)
    ensures
        found(at, n).len() <= n,
    decreases n,
{
    if n > 0 {
        lemma_found_bound(at, (n - 1) as nat);
    }
}

proof fn lemma_ranked_len(s: Seq<PlayerEntry>, i: int)
    requires
        0 <= i,
    ensures
        ranked_from(s, i).len() == s.len(),
    decreases s.len() - i,
{
    if i < s.len() {
        lemma_ranked_len(exchanged(s, i, leader(s, i, s.len() as int)), i + 1);
    }
}

proof fn lemma_exchanged_same_players(s: Seq<PlayerEntry>, i: int, j: int)
    requires
        0 <= i < s.len(),
        0 <= j < s.len(),
    ensures
        exchanged(s, i, j).to_multiset() == s.to_multiset(),
{
    broadcast use vstd::seq_lib::group_to_multiset_ensures;

    let a = s.update(i, s[j]);
    assert(a =~= s.remove(i).insert(i, s[j]));
    assert(exchanged(s, i, j) =~= a.remove(j).insert(j, s[i]));
    assert(s.contains(s[i]) && s.contains(s[j]));
    if i == j {
        assert(exchanged(s, i, j) =~= s);
    } else {
        assert(a[j] == s[j]);
        assert(a.to_multiset() =~= s.to_multiset().remove(s[i]).insert(s[j]));
        assert(exchanged(s, i, j).to_multiset() =~= a.to_multiset().remove(s[j]).insert(s[i]));
        assert(exchanged(s, i, j).to_multiset() =~= s.to_multiset());
    }
}

proof fn lemma_ranked(s: Seq<PlayerEntry>, i: int)
    requires
        0 <= i <= s.len(),
        forall|k: int, l: int|
            0 <= k < i && k <= l < s.len() ==> (#[trigger] s[k]).points >= (
            #[trigger] s[l]).points,
    ensures
        ranked_from(s, i).to_multiset() == s.to_multiset(),
        forall|k: int, l: int|
            0 <= k <= l < s.len() ==> (#[trigger] ranked_from(s, i)[k]).points >= (
            #[trigger] ranked_from(s, i)[l]).points,
        ranked_from(s, i).len() == s.len(),
    decreases s.len() - i,
{
    if i < s.len() {
        let m = leader(s, i, s.len() as int);
        lemma_leader(s, i, s.len() as int);
        lemma_exchanged_same_players(s, i, m);
        lemma_ranked(exchanged(s, i, m), i + 1);
    }
}

/// A ranking lists the same players as the standings, strongest first.
pub proof fn law_ranking_is_sorted(t: Top, now: u32)
    ensures
        ranking(t, now).to_multiset() == standings(t, now).to_multiset(),
        forall|k: int, l: int|
            0 <= k <= l < ranking(t, now).len() ==> (#[trigger] ranking(t, now)[k]).points >= (
            #[trigger] ranking(t, now)[l]).points,
{
    lemma_ranked(standings(t, now), 0);
}

proof fn lemma_leader_is_first(s: Seq<PlayerEntry>, from: int, to: int)
    requires
        0 <= from < to <= s.len(),
    ensures
        forall|k: int|
            from <= k < leader(s, from, to) ==> (#[trigger] s[k]).points < s[leader(
                s,
                from,
                to,
            )].points,
    decreases to - from,
{
    if to > from + 1 {
        lemma_leader_is_first(s, from, to - 1);
        lemma_leader(s, from, to - 1);
    }
}

/// What was ranked already stays where it is.
proof fn lemma_ranked_keeps(s: Seq<PlayerEntry>, i: int, k: int)
    requires
        0 <= k < i,
        k < s.len(),
    ensures
        ranked_from(s, i)[k] == s[k],
    decreases s.len() - i,
{
    if i < s.len() {
        let m = leader(s, i, s.len() as int);
        lemma_leader(s, i, s.len() as int);
        lemma_ranked_keeps(exchanged(s, i, m), i + 1, k);
    }
}

/// Among equally strong players the one in the foremost slot leads the ranking.
pub proof fn law_first_slot_leads_among_equals(t: Top, now: u32) -> (m: int)
    requires
        standings(t, now).len() > 0,
    ensures
        0 <= m < standings(t, now).len(),
        ranking(t, now)[0] == standings(t, now)[m],
        forall|k: int|
            0 <= k < standings(t, now).len() ==> (#[trigger] standings(t, now)[k]).points
                <= standings(t, now)[m].points,
        forall|k: int|
            0 <= k < m ==> (#[trigger] standings(t, now)[k]).points < standings(t, now)[m].points,
{
    let s = standings(t, now);
    let m = leader(s, 0, s.len() as int);
    lemma_leader(s, 0, s.len() as int);
    lemma_leader_is_first(s, 0, s.len() as int);
    lemma_ranked_keeps(exchanged(s, 0, m), 1, 0);
    m
}

/// Pages of one size laid end to end are the ranking itself.
pub proof fn law_pages_cover_ranking(t: Top, now: u32, pages: nat, page_size: u32)
    requires
        0 < page_size <= MAX_PAGE_SIZE,
        pages * page_size <= u32::MAX,
    ensures
        first_pages(t, now, pages, page_size) == window(
            ranking(t, now),
            0,
            pages * page_size,
        ),
    decreases pages,
{
    let r = ranking(t, now);
    if pages == 0 {
        assert(pages * page_size == 0) by (nonlinear_arith)
            requires
                pages == 0,
        ;
    } else {
        let p = (pages - 1) as nat;
        assert(p * page_size + page_size == pages * page_size) by (nonlinear_arith)
            requires
                p == pages - 1,
        ;
        assert(0 <= p * page_size) by (nonlinear_arith);
        law_pages_cover_ranking(t, now, p, page_size);
        let start = p * page_size;
        assert((start as u32) as int == start);
        assert(window(r, 0, start) + window(r, start, page_size as int) =~= window(
            r,
            0,
            start + page_size,
        ));
    }
}

/// The first pages of a ranking, laid end to end.
pub open spec fn first_pages(t: Top, now: u32, pages: nat, page_size: u32) -> Seq<PlayerEntry>
    decreases pages,
{
    if pages == 0 {
        Seq::empty()
    } else {
        let p = (pages - 1) as nat;
        first_pages(t, now, p, page_size) + page(t, now, (p * page_size) as u32, page_size)
    }
}

impl TopList {
    /// The listed players in slot order with their scores of epoch `now`.
    fn standings(&self, now: u32) -> (s: Vec<PlayerEntry>)
        ensures
            s@ == standings(self@, now),
    {
        let count: u32 = self.top_count();
        let mut s: Vec<PlayerEntry> = Vec::new();
        let mut i: u32 = 0;
        while i < count
            invariant
                i <= count,
                count == self@.len(),
                s@.len() <= i,
                s@ == found(self@.at, i as nat).map_values(
                    |e: PlayerEntry| brought_forward(e, now),
                ),
            decreases count - i,
        {
            assert((i + 1 - 1) as u32 == i);
            let ghost before = found(self@.at, i as nat);
            if let Some(e) = self.forward_entry(i) {
                let mut entry: PlayerEntry = e;
                entry.points = entry_points_now(&e, now);
                entry.epoch = now;
                s.push(entry);
                assert(found(self@.at, (i + 1) as nat) =~= before.push(e));
                assert(s@ =~= found(self@.at, (i + 1) as nat).map_values(
                    |e: PlayerEntry| brought_forward(e, now),
                ));
            }
            i = i + 1;
        }
        s
    }

    /// A page of the ranking in epoch `now`.
    pub fn ranked_page(&self, now: u32, offset: u32, page_size: u32) -> (result: Vec<PlayerEntry>)
        requires
            self@.len() <= MAX_TOP_PLAYERS,
        ensures
            result@ == page(self@, now, offset, page_size),
    {
        let ghost t = self@;
        proof {
            lemma_ranked_len(standings(t, now), 0);
            lemma_found_bound(t.at, t.len() as nat);
        }
        let count: u32 = self.top_count();
        if offset >= count || page_size == 0 {
            assert(page(t, now, offset, page_size) =~= Seq::empty());
            return Vec::new();
        }
        let limit: u32 = if page_size < MAX_PAGE_SIZE {
            page_size
        } else {
            MAX_PAGE_SIZE
        };
        let mut ranked: Vec<PlayerEntry> = self.standings(now);
        let n: usize = ranked.len();
        let mut i: usize = 0;
        while i < n
            invariant
                i <= n,
                n == ranked@.len(),
                ranked_from(ranked@, i as int) == ranking(t, now),
            decreases n - i,
        {
            let mut max_idx: usize = i;
            let mut j: usize = i + 1;
            while j < n
                invariant
                    i < j <= n,
                    i <= max_idx < j,
                    n == ranked@.len(),
                    max_idx == leader(ranked@, i as int, j as int),
                decreases n - j,
            {
                if ranked[j].points > ranked[max_idx].points {
                    max_idx = j;
                }
                j = j + 1;
            }
            let ghost before = ranked@;
            if max_idx != i {
                let a = ranked[i];
                let b = ranked[max_idx];
                ranked.set(i, b);
                ranked.set(max_idx, a);
            }
            assert(ranked@ =~= exchanged(before, i as int, max_idx as int));
            i = i + 1;
        }
        assert(ranked@ == ranking(t, now));
        let mut end: usize = offset as usize + limit as usize;
        if end > n {
            end = n;
        }
        let mut result: Vec<PlayerEntry> = Vec::new();
        let mut k: usize = offset as usize;
        while k < end
            invariant
                offset <= k,
                end <= n,
                n == ranked@.len(),
                offset <= end ==> k <= end,
                result@ == (if offset <= end {
                    ranked@.subrange(offset as int, k as int)
                } else {
                    Seq::empty()
                }),
            decreases end - k,
        {
            result.push(ranked[k]);
            assert(result@ =~= ranked@.subrange(offset as int, k as int + 1));
            k = k + 1;
        }
        assert(result@ =~= page(t, now, offset, page_size));
        result
    }
}

} // verus!
