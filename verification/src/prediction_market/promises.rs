//! What bettors and market creators can rely on, said of the arguments of a call
//! and of the stored records before and after it.
use crate::address::Address;
use crate::env::{Effect, Event, Ledger};
use crate::prediction_market::history::{
    in_order, latest, law_calls_keep_soundness, lemma_prefix_in_order, sound, Call,
};
use crate::prediction_market::keeping::lemma_split;
use crate::prediction_market::state::{MarketState, Verdict};
use crate::prediction_market::types::{
    BetEntry, Category, DataKey, Market, MarketError, RateWindow, Role,
};
use crate::table::{find, lookup};
use vstd::prelude::*;

verus! {

/// A call was refused with this error.
pub open spec fn refused_as<R>(r: Verdict<R>, e: MarketError) -> bool {
    r is Err && r->Err_0 == e
}

/// What a position has staked on one side, by the side of its first bet.
pub open spec fn stake_on(e: BetEntry, yes: bool) -> int {
    if e.is_yes == yes {
        e.net as int
    } else {
        e.hedge as int
    }
}

/// What all positions of a market have staked on one side.
pub open spec fn staked_in(m: Market, yes: bool) -> int {
    if yes {
        m.total_yes as int
    } else {
        m.total_no as int
    }
}

/// The fees of a market on record.
pub open spec fn fees_on_record(s: MarketState, id: u64) -> int {
    lookup(s.market_fees, id, 0) as int
}

/// The two records describe the same market in the same words.
pub open spec fn same_description(a: Market, b: Market) -> bool {
    &&& b.id == a.id
    &&& b.question == a.question
    &&& b.image_url == a.image_url
    &&& b.category == a.category
    &&& b.creator == a.creator
    &&& b.end_time == a.end_time
}

/// One market is open less than before, and never fewer than none.
pub open spec fn one_closed(s: MarketState, t: MarketState) -> bool {
    let before = s.open_markets.unwrap_or(0);
    &&& before > 0 ==> t.open_markets.unwrap_or(0) == before - 1
    &&& before == 0 ==> t.open_markets.unwrap_or(0) == 0
}

/// Who may create a market and when, and why everybody else is refused: the admin
/// alone, with fewer than 50 markets open, fewer than 10 created in the last 720
/// ledgers, and for an hour at least.
pub proof fn law_which_markets_are_created(
    s: MarketState,
    ledger: Ledger,
    admin: Address,
    question: String,
    image_url: String,
    category: Category,
    duration_secs: u64,
)
    ensures
        ({
            let r = s.create_market(ledger, admin, question, image_url, category, duration_secs);
            let paused = s.paused == Some(true);
            let allowed = !paused && s.admin == Some(admin);
            let few = allowed && s.open_markets.unwrap_or(0) < 50;
            let full = s.rate_window matches Some(w) && ledger.sequence < w.start + 720 && w.count
                >= 10;
            &&& paused ==> refused_as(r, MarketError::ContractPaused)
            &&& !paused && s.admin is None ==> refused_as(r, MarketError::NotInitialized)
            &&& !paused && s.admin is Some && s.admin != Some(admin) ==> refused_as(
                r,
                MarketError::NotAdmin,
            )
            &&& allowed && !few ==> refused_as(r, MarketError::TooManyOpenMarkets)
            &&& few && full ==> refused_as(r, MarketError::RateLimitExceeded)
            &&& few && !full && duration_secs < 3_600 ==> refused_as(
                r,
                MarketError::InvalidDuration,
            )
            &&& r is Ok == (few && !full && duration_secs >= 3_600)
        }),
{
}

/// A new market gets the next number, and its record has the question, the image,
/// the category and the creator that were given. It ends when the time given has
/// passed, is open and has no stakes. No other market and no other record changes;
/// the counters go up by one.
pub proof fn law_markets_are_created_as_told(
    s: MarketState,
    ledger: Ledger,
    admin: Address,
    question: String,
    image_url: String,
    category: Category,
    duration_secs: u64,
    other: u64,
)
    requires
        s.market_count.unwrap_or(0) < u64::MAX,
        ledger.timestamp + duration_secs <= u64::MAX,
    ensures
        s.create_market(ledger, admin, question, image_url, category, duration_secs) matches Ok(o)
            ==> {
            let id = o.value;
            &&& id == s.market_count.unwrap_or(0) + 1
            &&& o.state.market_count == Some(id)
            &&& o.state.open_markets.unwrap_or(0) == s.open_markets.unwrap_or(0) + 1
            &&& o.state.markets.dom().contains(id)
            &&& o.state.markets[id].id == id
            &&& o.state.markets[id].question == question
            &&& o.state.markets[id].image_url == image_url
            &&& o.state.markets[id].category == category
            &&& o.state.markets[id].creator == admin
            &&& o.state.markets[id].end_time == ledger.timestamp + duration_secs
            &&& o.state.markets[id].total_yes == 0
            &&& o.state.markets[id].total_no == 0
            &&& o.state.markets[id].bet_count == 0
            &&& !o.state.markets[id].resolved
            &&& !o.state.markets[id].cancelled
            &&& !o.state.markets[id].outcome
            &&& other != id ==> find(o.state.markets, other) == find(s.markets, other)
            &&& (s.rate_window matches Some(w) && ledger.sequence < w.start + 720)
                ==> o.state.rate_window == Some(
                RateWindow {
                    start: s.rate_window->0.start,
                    count: (s.rate_window->0.count + 1) as u32,
                },
            )
            &&& s.rate_window is None && ledger.sequence < 720 ==> o.state.rate_window == Some(
                RateWindow { start: 0, count: 1 },
            )
            &&& (s.rate_window matches Some(w) ==> ledger.sequence >= w.start + 720) && (
            s.rate_window is None ==> ledger.sequence >= 720) ==> o.state.rate_window == Some(
                RateWindow { start: ledger.sequence, count: 1 },
            )
            &&& o.state == (MarketState {
                market_count: o.state.market_count,
                open_markets: o.state.open_markets,
                rate_window: o.state.rate_window,
                markets: o.state.markets,
                ..s
            })
            &&& o.effects.len() == 2
            &&& o.effects[0] == Effect::RequireAuth(admin)
            &&& o.effects[1] matches Effect::Publish(
                Event::MarketCreated { market_id, creator, end_time },
            ) && market_id == id && creator == admin && end_time == ledger.timestamp
                + duration_secs
            &&& o.renewed == set![DataKey::Market(id)]
            &&& !o.instance_renewed
        },
{
}

/// No call changes what a market is about: its number, question, image, category,
/// creator and end stay what they were when it was created.
pub proof fn law_markets_stay_what_they_are(s: MarketState, ledger: Ledger, call: Call, id: u64)
    requires
        s.wf(),
        s.fits(ledger, call),
        s.markets.dom().contains(id),
    ensures
        s.after(ledger, call).markets.dom().contains(id),
        same_description(s.markets[id], s.after(ledger, call).markets[id]),
{
    let t = s.after(ledger, call);
    match call {
        Call::CreateMarket { .. } => {
            let new = (s.count() + 1) as u64;
            assert(t == s || t.markets == s.markets.insert(new, t.markets[new]) && id != new);
        },
        Call::PlaceBet { user, id: i, is_yes, amount, referral_version } => {
            assert(t == s || t == s.with_bet(user, i, is_yes, amount));
        },
        Call::ReducePosition { user, id: i, amount } => {
            assert(t == s || t == s.with_less(user, i, amount));
        },
        Call::ResolveMarket { id: i, .. } => {
            assert(t == s || t.markets == s.markets.insert(i, t.markets[i]) && same_description(
                s.markets[i],
                t.markets[i],
            ));
        },
        Call::CancelMarket { id: i, .. } => {
            assert(t == s || t.markets == s.markets.insert(i, t.markets[i]) && same_description(
                s.markets[i],
                t.markets[i],
            ));
        },
        Call::FreezeMarket { id: i, .. } => {
            assert(t == s || t.markets == s.markets.insert(i, t.markets[i]) && same_description(
                s.markets[i],
                t.markets[i],
            ));
        },
        _ => {
            assert(t.markets == s.markets);
        },
    }
}

/// The same through any number of calls.
pub proof fn law_markets_stay_what_they_are_for_good(
    s: MarketState,
    now: u64,
    calls: Seq<(Ledger, Call)>,
    id: u64,
)
    requires
        sound(s, now),
        in_order(calls),
        calls.len() > 0 ==> now <= calls[0].0.timestamp,
        s.fits_all(calls),
        s.markets.dom().contains(id),
    ensures
        s.after_all(calls).markets.dom().contains(id),
        same_description(s.markets[id], s.after_all(calls).markets[id]),
{
    lemma_descriptions_stand(s, now, calls, id);
}

proof fn lemma_descriptions_stand(s: MarketState, now: u64, calls: Seq<(Ledger, Call)>, id: u64)
    requires
        sound(s, now),
        in_order(calls),
        calls.len() > 0 ==> now <= calls[0].0.timestamp,
        s.fits_all(calls),
        s.markets.dom().contains(id),
    ensures
        s.after_all(calls).markets.dom().contains(id),
        same_description(s.markets[id], s.after_all(calls).markets[id]),
        sound(
            s.after_all(calls),
            if calls.len() == 0 {
                now
            } else {
                latest(calls)
            },
        ),
    decreases calls.len(),
{
    if calls.len() > 0 {
        let before = calls.drop_last();
        let (ledger, call) = calls.last();
        lemma_prefix_in_order(calls);
        lemma_descriptions_stand(s, now, before, id);
        let mid = s.after_all(before);
        let last_now = if before.len() == 0 {
            now
        } else {
            latest(before)
        };
        law_calls_keep_soundness(mid, last_now, ledger, call);
        assert(mid.wf()) by {
            reveal(sound);
        }
        law_markets_stay_what_they_are(mid, ledger, call, id);
    }
}

/// Which bets are taken, and why each of the others is not. What is left of a bet
/// once 2% are taken off has to come to one lumen; the market has to be there, open
/// and not over; nobody places more than 20 bets on it; the referral contract has to
/// be trusted and to declare a version; and nobody who may resolve markets bets.
pub proof fn law_which_bets_are_taken(
    s: MarketState,
    ledger: Ledger,
    user: Address,
    id: u64,
    is_yes: bool,
    amount: i128,
    version: Option<u32>,
)
    ensures
        ({
            let r = s.place_bet(ledger, user, id, is_yes, amount, version);
            let m = s.markets[id];
            let running = s.paused != Some(true);
            let large = running && 9_800 * amount >= 10_000 * 10_000_000;
            let there = large && s.markets.dom().contains(id);
            let going = there && !m.cancelled;
            let undecided = going && !m.resolved;
            let on_time = undecided && ledger.timestamp < m.end_time;
            let few = on_time && (find(s.bets, (id, user)) matches Some(e) ==> e.count < 20);
            let trusted = few && !lookup(s.trust_revoked, Role::Referral, false);
            let outsider = trusted && !lookup(s.resolvers, user, false);
            &&& !running ==> refused_as(r, MarketError::ContractPaused)
            &&& running && !large ==> refused_as(r, MarketError::BetTooSmall)
            &&& large && !there ==> refused_as(r, MarketError::MarketNotFound)
            &&& there && !going ==> refused_as(r, MarketError::MarketCancelled)
            &&& going && !undecided ==> refused_as(r, MarketError::MarketResolved)
            &&& undecided && !on_time ==> refused_as(r, MarketError::MarketExpired)
            &&& on_time && !few ==> refused_as(r, MarketError::TooManyBets)
            &&& few && !trusted ==> refused_as(r, MarketError::TrustRevoked)
            &&& trusted && !outsider ==> refused_as(r, MarketError::ConflictOfInterest)
            &&& outsider && version is None ==> refused_as(r, MarketError::InterfaceVersionMissing)
            &&& outsider && version == Some(0u32) ==> refused_as(
                r,
                MarketError::IncompatibleInterface,
            )
            &&& r is Ok == (outsider && version is Some && version->0 >= 1)
            &&& outsider == (s.bet_refusal(ledger, user, id, amount) is None)
        }),
{
}

/// How a bet is split. What its side and its position gain is the amount less 2%,
/// rounded down; what the platform keeps is 1.5% of it, rounded down; and what is
/// sent to the referral contract is the rest, half a percent and less than two units.
pub proof fn law_bets_are_split_by_percent(
    s: MarketState,
    ledger: Ledger,
    user: Address,
    id: u64,
    is_yes: bool,
    amount: i128,
    version: Option<u32>,
)
    requires
        s.wf(),
        s.can_bet(user, id, is_yes, amount),
    ensures
        s.place_bet(ledger, user, id, is_yes, amount, version) matches Ok(o) ==> {
            let m = s.markets[id];
            let net = staked_in(o.state.markets[id], is_yes) - staked_in(m, is_yes);
            let kept = fees_on_record(o.state, id) - fees_on_record(s, id);
            let sent = amount - net - kept;
            &&& 10_000 * net <= 9_800 * amount < 10_000 * (net + 1)
            &&& 10_000 * kept <= 150 * amount < 10_000 * (kept + 1)
            &&& 0 <= sent
            &&& 50 * amount <= 10_000 * sent < 50 * amount + 2 * 10_000
            &&& staked_in(o.state.markets[id], !is_yes) == staked_in(m, !is_yes)
            &&& o.effects.len() == 5
            &&& o.effects[0] == Effect::RequireAuth(user)
            &&& o.effects[1] == (Effect::Transfer {
                asset: s.cfg->0.xlm_sac,
                from: user,
                to: ledger.this,
                amount,
            })
            &&& o.effects[2] matches Effect::Transfer { asset, from, to, amount: out } && asset
                == s.cfg->0.xlm_sac && from == ledger.this && to == s.cfg->0.referral && out
                == sent
            &&& o.effects[3] matches Effect::Credit { referral, user: whose, fee } && referral
                == s.cfg->0.referral && whose == user && fee == sent
            &&& o.effects[4] == Effect::Publish(
                Event::BetPlaced { market_id: id, user, is_yes, amount },
            )
        },
{
    if s.place_bet(ledger, user, id, is_yes, amount, version) is Ok {
        lemma_split(amount as int);
        assert(s.fees_of(id) >= 0) by {
            assert(s.market_fees.dom().contains(id) ==> s.market_fees[id] >= 0);
        }
    }
}

/// What a bet puts on record. The position gains on the side that was bet on just
/// what the market does, and in fees just what the market does; the other side
/// stays. A first bet opens a position and gives its owner the next place among the
/// market's bettors. Nothing else of the market, no other position, no other market
/// and nothing else at all changes.
pub proof fn law_bets_are_recorded(
    s: MarketState,
    ledger: Ledger,
    user: Address,
    id: u64,
    is_yes: bool,
    amount: i128,
    version: Option<u32>,
    other: (u64, Address),
    place: (u64, u32),
)
    requires
        s.wf(),
        s.can_bet(user, id, is_yes, amount),
        other != (id, user),
    ensures
        s.place_bet(ledger, user, id, is_yes, amount, version) matches Ok(o) ==> {
            let m = s.markets[id];
            let n = o.state.markets[id];
            let e = o.state.bets[(id, user)];
            let net = staked_in(n, is_yes) - staked_in(m, is_yes);
            let kept = fees_on_record(o.state, id) - fees_on_record(s, id);
            let at = lookup(s.bettor_count, id, 0);
            &&& o.state.bets.dom().contains((id, user))
            &&& find(s.bets, (id, user)) is None ==> {
                &&& e.is_yes == is_yes
                &&& e.net == net
                &&& e.hedge == 0
                &&& e.gross == amount
                &&& e.fee == kept
                &&& !e.claimed
                &&& e.count == 1
                &&& n.bet_count == m.bet_count + 1
                &&& lookup(o.state.bettor_count, id, 0) == at + 1
                &&& find(o.state.bettor_at, (id, at)) == Some(user)
                &&& place != (id, at) ==> find(o.state.bettor_at, place) == find(
                    s.bettor_at,
                    place,
                )
                &&& place.0 != id ==> find(o.state.bettor_count, place.0) == find(
                    s.bettor_count,
                    place.0,
                )
                &&& o.renewed == set![
                    DataKey::Bet(id, user),
                    DataKey::Market(id),
                    DataKey::MarketFees(id),
                    DataKey::BettorAt(id, at),
                    DataKey::BettorCount(id),
                ]
            }
            &&& find(s.bets, (id, user)) matches Some(b) ==> {
                &&& stake_on(e, is_yes) == stake_on(b, is_yes) + net
                &&& stake_on(e, !is_yes) == stake_on(b, !is_yes)
                &&& e.gross == b.gross + amount
                &&& e.fee == b.fee + kept
                &&& e.count == b.count + 1
                &&& e.is_yes == b.is_yes
                &&& e.claimed == b.claimed
                &&& n.bet_count == m.bet_count
                &&& o.state.bettor_count == s.bettor_count
                &&& o.state.bettor_at == s.bettor_at
                &&& o.renewed == set![
                    DataKey::Bet(id, user),
                    DataKey::Market(id),
                    DataKey::MarketFees(id),
                ]
            }
            &&& same_description(m, n)
            &&& n.resolved == m.resolved
            &&& n.outcome == m.outcome
            &&& n.cancelled == m.cancelled
            &&& find(o.state.bets, other) == find(s.bets, other)
            &&& other.0 != id ==> find(o.state.markets, other.0) == find(s.markets, other.0)
            &&& other.0 != id ==> find(o.state.market_fees, other.0) == find(
                s.market_fees,
                other.0,
            )
            &&& o.state == (MarketState {
                bets: o.state.bets,
                bettor_at: o.state.bettor_at,
                bettor_count: o.state.bettor_count,
                markets: o.state.markets,
                market_fees: o.state.market_fees,
                ..s
            })
            &&& !o.instance_renewed
        },
{
    if s.place_bet(ledger, user, id, is_yes, amount, version) is Ok {
        lemma_split(amount as int);
        assert(s.markets[id].id == id);
        if s.bets.dom().contains((id, user)) {
            assert(s.bets[(id, user)].wf());
        }
        assert(s.fees_of(id) >= 0) by {
            assert(s.market_fees.dom().contains(id) ==> s.market_fees[id] >= 0);
        }
    }
}

/// The referral contract's first answer for a user is kept, whatever it answers
/// later; nobody else's changes, and nothing else does.
pub proof fn law_first_answers_are_kept(
    s: MarketState,
    user: Address,
    credited: bool,
    other: Address,
)
    requires
        other != user,
    ensures
        ({
            let t = s.credit_answered(user, credited);
            &&& find(s.has_referrer, user) is None ==> find(t.has_referrer, user) == Some(credited)
            &&& find(s.has_referrer, user) is Some ==> find(t.has_referrer, user) == find(
                s.has_referrer,
                user,
            )
            &&& find(t.has_referrer, other) == find(s.has_referrer, other)
            &&& t == (MarketState { has_referrer: t.has_referrer, ..s })
        }),
{
}

/// Which claims go through, and why each of the others does not: the market has to
/// be resolved and not cancelled, the claimant to have a position that was not
/// claimed, an outcome that nobody bet on to be past dispute, and the leaderboard to
/// be trusted and to declare a version.
pub proof fn law_which_claims_go_through(
    s: MarketState,
    ledger: Ledger,
    user: Address,
    id: u64,
    version: Option<u32>,
)
    ensures
        ({
            let r = s.claim(ledger, user, id, version);
            let m = s.markets[id];
            let e = s.bets[(id, user)];
            let running = s.paused != Some(true);
            let there = running && s.markets.dom().contains(id);
            let going = there && !m.cancelled;
            let decided = going && m.resolved;
            let bettor = decided && s.bets.dom().contains((id, user));
            let first = bettor && !e.claimed;
            let settled = first && (find(s.forfeited, id) matches Some(f) ==> ledger.timestamp
                >= f.disputable_until);
            let trusted = settled && !lookup(s.trust_revoked, Role::Leaderboard, false);
            &&& !running ==> refused_as(r, MarketError::ContractPaused)
            &&& running && !there ==> refused_as(r, MarketError::MarketNotFound)
            &&& there && !going ==> refused_as(r, MarketError::MarketCancelled)
            &&& going && !decided ==> refused_as(r, MarketError::MarketNotResolved)
            &&& decided && !bettor ==> refused_as(r, MarketError::NoBetFound)
            &&& bettor && !first ==> refused_as(r, MarketError::AlreadyClaimed)
            &&& first && !settled ==> refused_as(r, MarketError::DisputeWindowActive)
            &&& settled && !trusted ==> refused_as(r, MarketError::TrustRevoked)
            &&& trusted && version is None ==> refused_as(r, MarketError::InterfaceVersionMissing)
            &&& trusted && version == Some(0u32) ==> refused_as(
                r,
                MarketError::IncompatibleInterface,
            )
            &&& r is Ok == (trusted && version is Some && version->0 >= 1)
            &&& trusted == (s.claim_refusal(ledger, user, id) is None)
        }),
{
}

/// How a claim is scored, whichever way the market went. A claimant with a stake on
/// the outcome is rewarded with 30 points and ten tokens as a winner, and nothing is
/// taken from them. Anybody else has the bet counted as lost and 10 points taken, and
/// gets no reward. Each is asked of the leaderboard once.
pub proof fn law_winners_are_rewarded_and_losers_penalized(
    s: MarketState,
    ledger: Ledger,
    user: Address,
    id: u64,
    version: Option<u32>,
    i: int,
)
    ensures
        s.claim(ledger, user, id, version) matches Ok(o) ==> {
            let board = s.cfg->0.leaderboard;
            let won = stake_on(s.bets[(id, user)], s.markets[id].outcome) > 0;
            let reward = Effect::Reward {
                leaderboard: board,
                user,
                points: 30,
                tokens: 10_0000000,
                is_winner: true,
            };
            let count = Effect::AddPts { leaderboard: board, user, pts: 0, is_won: false };
            let penalty = Effect::Penalize { leaderboard: board, user, points: 10 };
            &&& won ==> o.effects.last() == reward
            &&& won ==> 0 <= i < o.effects.len() - 1 ==> !(o.effects[i] is Reward)
            &&& won ==> 0 <= i < o.effects.len() ==> !(o.effects[i] is Penalize)
                && !(o.effects[i] is AddPts)
            &&& !won ==> o.effects.last() == penalty
            &&& !won ==> o.effects.len() >= 3 && o.effects[o.effects.len() - 2] == count
            &&& !won ==> 0 <= i < o.effects.len() - 2 ==> !(o.effects[i] is AddPts)
                && !(o.effects[i] is Penalize)
            &&& !won ==> 0 <= i < o.effects.len() ==> !(o.effects[i] is Reward)
            &&& o.effects.contains(reward) == won
            &&& o.effects.contains(penalty) == !won
            &&& o.effects.contains(count) == !won
        },
{
    if let Ok(o) = s.claim(ledger, user, id, version) {
        let board = s.cfg->0.leaderboard;
        assert(o.effects[0] == Effect::RequireAuth(user));
        let last = o.effects.len() - 1;
        assert(o.effects[last] == o.effects.last());
        assert(o.effects[last - 1] == o.effects[o.effects.len() - 2]);
    }
}

/// What a claim pays and puts on record: the payout on record goes to the claimant,
/// once and whole, and nothing where there is none; the position is marked as
/// claimed; and nothing else changes.
pub proof fn law_claims_pay_once_and_whole(
    s: MarketState,
    ledger: Ledger,
    user: Address,
    id: u64,
    version: Option<u32>,
    other: (u64, Address),
    key: DataKey,
)
    requires
        other != (id, user),
    ensures
        s.claim(ledger, user, id, version) matches Ok(o) ==> {
            let due = lookup(s.payouts, (id, user), 0);
            let won = stake_on(s.bets[(id, user)], s.markets[id].outcome) > 0;
            &&& o.effects[0] == Effect::RequireAuth(user)
            &&& due > 0 ==> o.effects[1] == (Effect::Transfer {
                asset: s.cfg->0.xlm_sac,
                from: ledger.this,
                to: user,
                amount: due,
            })
            &&& o.effects.len() == 1 + (if due > 0 {
                1int
            } else {
                0
            }) + (if won {
                1int
            } else {
                2
            })
            &&& find(o.state.bets, (id, user)) == Some(
                BetEntry { claimed: true, ..s.bets[(id, user)] },
            )
            &&& find(o.state.bets, other) == find(s.bets, other)
            &&& o.state == (MarketState { bets: o.state.bets, ..s })
            &&& o.renewed.contains(key) == (key == DataKey::Bet(id, user) || key
                == DataKey::Market(id) || key == DataKey::Payout(id, user)
                && s.payouts.dom().contains((id, user)))
            &&& !o.instance_renewed
        },
{
}

} // verus!
