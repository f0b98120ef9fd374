//! What players can rely on, said of the arguments of a call and of the stored
//! records before and after it.
use crate::address::Address;
use crate::env::{Effect, Event, Ledger};
use crate::leaderboard::decay::{decayed, epoch_of, faded, lemma_faded_bounds, periods_since};
use crate::leaderboard::state::{role_named, LeaderboardState, Verdict};
use crate::leaderboard::types::{
    DataKey, LeaderboardError, PendingReward, PlayerEntry, Role, StoredStats,
};
use crate::table::{find, lookup};
use vstd::prelude::*;

verus! {

/// A call was refused with this error.
pub open spec fn refused_as(r: Verdict, e: LeaderboardError) -> bool {
    r is Err && r->Err_0 == e
}

/// The week that a ledger lies in, counted in 120,960 ledgers.
pub open spec fn week_of(sequence: u32) -> int {
    sequence as int / 120_960
}

/// How many whole weeks lie between when a player's score was written and this one.
pub open spec fn weeks_idle(s: LeaderboardState, user: Address, week: int) -> int {
    match find(s.stats_epoch, user) {
        Some(written) => if week > written {
            week - written
        } else {
            0
        },
        None => 0,
    }
}

/// What is on record of a player; nothing before the first score.
pub open spec fn on_record(s: LeaderboardState, user: Address) -> StoredStats {
    match find(s.stats, user) {
        Some(r) => r,
        None => StoredStats { points: 0, won_bets: 0, lost_bets: 0, bonus_bets: 0 },
    }
}

/// A player's score at a ledger: what is on record, less what it lost since.
pub open spec fn score_at(s: LeaderboardState, user: Address, sequence: u32) -> int {
    decayed(
        on_record(s, user).points,
        weeks_idle(s, user, week_of(sequence)) as u32,
    ) as int
}

/// What was minted to a player so far.
pub open spec fn minted_so_far(s: LeaderboardState, user: Address) -> int {
    lookup(s.minted, user, 0) as int
}

/// Nobody but this player is affected in what is on record of their scores, rewards
/// and tokens; rights and settings are as they were.
pub open spec fn only_concerns(s: LeaderboardState, t: LeaderboardState, user: Address) -> bool {
    &&& forall|other: Address|
        other != user ==> {
            &&& #[trigger] find(t.stats, other) == find(s.stats, other)
            &&& find(t.stats_epoch, other) == find(s.stats_epoch, other)
            &&& find(t.pending, other) == find(s.pending, other)
            &&& find(t.minted, other) == find(s.minted, other)
        }
    &&& same_rights(s, t)
    &&& t.banned == s.banned
}

/// Rights and settings are as they were.
pub open spec fn same_rights(s: LeaderboardState, t: LeaderboardState) -> bool {
    &&& t.admin == s.admin
    &&& t.market_contract == s.market_contract
    &&& t.referral_contract == s.referral_contract
    &&& t.token_contract == s.token_contract
    &&& t.interface_version == s.interface_version
    &&& t.paused == s.paused
    &&& t.revoked == s.revoked
}

/// What minting asks of the host: nothing where there is nothing to mint.
pub open spec fn mint_asked(s: LeaderboardState, user: Address, tokens: i128) -> Seq<Effect> {
    if tokens > 0 {
        seq![Effect::Mint { token: s.token_contract->0, to: user, amount: tokens }]
    } else {
        Seq::empty()
    }
}

/// Scoring renews the player's own entries, the tally where anything was minted, and
/// what it touched of the list.
pub open spec fn own_renewed(
    renewed: Set<DataKey>,
    user: Address,
    minted: bool,
    listed: Set<DataKey>,
) -> bool {
    forall|key: DataKey| #[trigger]
        renewed.contains(key) == (key == DataKey::Stats(user) || key == DataKey::StatsEpoch(user)
            || minted && key == DataKey::Minted(user) || listed.contains(key))
}

/// Why tokens cannot be minted: the token contract is not trusted, not named, or
/// declares no version; nothing is needed where there is nothing to mint.
pub open spec fn mint_error(
    s: LeaderboardState,
    tokens: i128,
    version: Option<u32>,
) -> Option<LeaderboardError> {
    if tokens <= 0 {
        None
    } else if find(s.revoked, Role::Token) == Some(true) {
        Some(LeaderboardError::TrustRevoked)
    } else if s.token_contract is None {
        Some(LeaderboardError::TokenNotConfigured)
    } else if version is None {
        Some(LeaderboardError::InterfaceVersionMissing)
    } else if version == Some(0u32) {
        Some(LeaderboardError::IncompatibleInterface)
    } else {
        None
    }
}

/// Why a caller is refused who is to be the contract in this role.
pub open spec fn caller_error(
    s: LeaderboardState,
    expected: Option<Address>,
    role: Role,
    caller: Address,
) -> Option<LeaderboardError> {
    if s.paused == Some(true) {
        Some(LeaderboardError::ContractPaused)
    } else if expected is None {
        Some(LeaderboardError::NotInitialized)
    } else if expected != Some(caller) {
        Some(LeaderboardError::UnauthorizedCaller)
    } else if find(s.revoked, role) == Some(true) {
        Some(LeaderboardError::TrustRevoked)
    } else {
        None
    }
}

/// The first error of a list of what can go wrong, in order.
pub open spec fn first_error(
    a: Option<LeaderboardError>,
    b: Option<LeaderboardError>,
) -> Option<LeaderboardError> {
    if a is Some {
        a
    } else {
        b
    }
}

/// The call goes through where nothing is wrong, and is refused with what is.
pub open spec fn goes_by(r: Verdict, e: Option<LeaderboardError>) -> bool {
    match e {
        Some(e) => refused_as(r, e),
        None => r is Ok,
    }
}

/// No points to score, or a banned player.
pub open spec fn player_error(s: LeaderboardState, user: Address, points: u64) -> Option<
    LeaderboardError,
> {
    if points == 0 {
        Some(LeaderboardError::InvalidPoints)
    } else if find(s.banned, user) == Some(true) {
        Some(LeaderboardError::PlayerBanned)
    } else {
        None
    }
}

/// How a score loses value: nothing within a week; each further week it keeps nine
/// tenths of what it was, rounded down; and after 52 weeks nothing is left.
pub proof fn law_scores_lose_a_tenth_a_week(points: u64, weeks: u32)
    requires
        weeks < u32::MAX,
    ensures
        decayed(points, 0) == points,
        weeks + 1 < 52 ==> 10 * decayed(points, (weeks + 1) as u32) <= 9 * decayed(points, weeks)
            < 10 * (decayed(points, (weeks + 1) as u32) + 1),
        weeks >= 52 ==> decayed(points, weeks) == 0,
{
    lemma_faded_bounds(points as int, weeks as nat);
    lemma_faded_bounds(points as int, (weeks + 1) as nat);
    assert(faded(points as int, (weeks + 1) as nat) == faded(points as int, weeks as nat) * 9
        / 10);
}

/// A week is 120,960 ledgers, counted from the first.
pub proof fn law_weeks_are_counted_in_ledgers(sequence: u32, epoch: u32, now: u32)
    ensures
        epoch_of(sequence) == week_of(sequence),
        120_960 * epoch_of(sequence) <= sequence < 120_960 * (epoch_of(sequence) + 1),
        now >= epoch ==> periods_since(epoch, now) == now - epoch,
        now < epoch ==> periods_since(epoch, now) == 0,
{
}

/// What is reported of a player: the score of the moment, and the counts on record,
/// with every bet counted once in the total.
pub proof fn law_reports_are_the_records(
    s: LeaderboardState,
    user: Address,
    sequence: u32,
    role: Role,
    e: PlayerEntry,
)
    ensures
        ({
            let r = s.current(user, epoch_of(sequence)).reported();
            let was = on_record(s, user);
            &&& s.points(user, epoch_of(sequence)) == score_at(s, user, sequence)
            &&& r.points == score_at(s, user, sequence)
            &&& r.won_bets == was.won_bets
            &&& r.lost_bets == was.lost_bets
            &&& was.won_bets + was.lost_bets + was.bonus_bets <= u32::MAX ==> r.total_bets
                == was.won_bets + was.lost_bets + was.bonus_bets
            &&& s.is_paused() == (s.paused == Some(true))
            &&& s.is_banned(user) == (find(s.banned, user) == Some(true))
            &&& s.is_revoked(role) == (find(s.revoked, role) == Some(true))
            &&& s.minted_to(user) == minted_so_far(s, user)
            &&& week_of(sequence) > e.epoch ==> e.points_at(epoch_of(sequence)) == decayed(
                e.points,
                (week_of(sequence) - e.epoch) as u32,
            )
            &&& week_of(sequence) <= e.epoch ==> e.points_at(epoch_of(sequence)) == e.points
        }),
{
    lemma_faded_bounds(e.points as int, 0);
}

/// Which settled bets are rewarded, and why each of the others is not: for the market
/// contract alone, with points to score, for a player who is not banned, and with a
/// token contract that can mint the tokens.
pub proof fn law_which_rewards_are_scored(
    s: LeaderboardState,
    ledger: Ledger,
    caller: Address,
    user: Address,
    points: u64,
    tokens: i128,
    is_winner: bool,
    version: Option<u32>,
)
    ensures
        goes_by(
            s.reward(ledger, caller, user, points, tokens, is_winner, version),
            first_error(
                first_error(
                    caller_error(s, s.market_contract, Role::Market, caller),
                    player_error(s, user, points),
                ),
                mint_error(s, tokens, version),
            ),
        ),
        goes_by(
            s.add_pts(ledger, caller, user, points, is_winner),
            first_error(
                caller_error(s, s.market_contract, Role::Market, caller),
                if find(s.banned, user) == Some(true) {
                    Some(LeaderboardError::PlayerBanned)
                } else {
                    None
                },
            ),
        ),
{
}

/// What a rewarded bet does: the score grows by the points, one win or one loss is
/// counted, the tokens are minted and tallied, and the list learns of the new score.
/// Nothing of anybody else's and no queued reward changes.
pub proof fn law_rewards_are_scored(
    s: LeaderboardState,
    ledger: Ledger,
    caller: Address,
    user: Address,
    points: u64,
    tokens: i128,
    is_winner: bool,
    version: Option<u32>,
)
    requires
        score_at(s, user, ledger.sequence) + points <= u64::MAX,
        on_record(s, user).won_bets < u32::MAX,
        on_record(s, user).lost_bets < u32::MAX,
        minted_so_far(s, user) + tokens <= i128::MAX,
    ensures
        s.reward(ledger, caller, user, points, tokens, is_winner, version) matches Ok(o)
            ==> bet_scored(s, o.state, ledger, user, points, is_winner) && tokens_tallied(
            s,
            o.state,
            user,
            tokens,
        ) && o.effects == bet_asks(s, o.state, caller, user) + mint_asked(s, user, tokens)
            && own_renewed(
            o.renewed,
            user,
            tokens > 0,
            s.top.updated_renews(user, on_record(o.state, user).points, o.state.stats_epoch[user]),
        ) && o.instance_renewed,
        s.add_pts(ledger, caller, user, points, is_winner) matches Ok(o) ==> bet_scored(
            s,
            o.state,
            ledger,
            user,
            points,
            is_winner,
        ) && o.state.minted == s.minted && o.effects == bet_asks(s, o.state, caller, user)
            && own_renewed(
            o.renewed,
            user,
            false,
            s.top.updated_renews(user, on_record(o.state, user).points, o.state.stats_epoch[user]),
        ) && o.instance_renewed,
{
    if let Ok(o) = s.add_pts(ledger, caller, user, points, is_winner) {
        assert(o.effects =~= bet_asks(s, o.state, caller, user));
    }
}

/// One bet more is on record, won or lost, with its points, written this week.
pub open spec fn bet_scored(
    s: LeaderboardState,
    t: LeaderboardState,
    ledger: Ledger,
    user: Address,
    points: u64,
    is_won: bool,
) -> bool {
    let was = on_record(s, user);
    let is = on_record(t, user);
    &&& t.stats.dom().contains(user)
    &&& is.points == score_at(s, user, ledger.sequence) + points
    &&& is_won ==> is.won_bets == was.won_bets + 1 && is.lost_bets == was.lost_bets
    &&& !is_won ==> is.won_bets == was.won_bets && is.lost_bets == was.lost_bets + 1
    &&& is.bonus_bets == was.bonus_bets
    &&& t.stats_epoch.dom().contains(user) && t.stats_epoch[user] == week_of(ledger.sequence)
    &&& t.top == s.top.updated(user, is.points, t.stats_epoch[user])
    &&& t.pending == s.pending
    &&& only_concerns(s, t, user)
}

/// What scoring a bet asks of the host before any tokens.
pub open spec fn bet_asks(
    s: LeaderboardState,
    t: LeaderboardState,
    caller: Address,
    user: Address,
) -> Seq<Effect> {
    seq![
        Effect::RequireAuth(caller),
        Effect::Publish(
            Event::BetScored {
                user,
                points: on_record(t, user).points,
                won_bets: on_record(t, user).won_bets,
                lost_bets: on_record(t, user).lost_bets,
            },
        ),
    ]
}

/// The player's tally grew by the tokens, where there are any.
pub open spec fn tokens_tallied(
    s: LeaderboardState,
    t: LeaderboardState,
    user: Address,
    tokens: i128,
) -> bool {
    &&& tokens > 0 ==> minted_so_far(t, user) == minted_so_far(s, user) + tokens
    &&& tokens <= 0 ==> t.minted == s.minted
}

/// Which bonuses are scored, and why each of the others is not, and what one does:
/// for the referral contract alone, with points to score, for a player who is not
/// banned. The score grows by the points, one bonus is counted and neither a win nor a
/// loss, and the tokens are minted and tallied.
pub proof fn law_bonuses_are_scored(
    s: LeaderboardState,
    ledger: Ledger,
    caller: Address,
    user: Address,
    points: u64,
    tokens: i128,
    version: Option<u32>,
)
    requires
        score_at(s, user, ledger.sequence) + points <= u64::MAX,
        on_record(s, user).bonus_bets < u32::MAX,
        minted_so_far(s, user) + tokens <= i128::MAX,
    ensures
        ({
            let r = s.settle_bonus(ledger, caller, user, points, tokens, version);
            &&& goes_by(
                r,
                first_error(
                    first_error(
                        caller_error(s, s.referral_contract, Role::Referral, caller),
                        player_error(s, user, points),
                    ),
                    mint_error(s, tokens, version),
                ),
            )
            &&& r matches Ok(o) ==> {
                let was = on_record(s, user);
                let is = on_record(o.state, user);
                &&& o.state.stats.dom().contains(user)
                &&& is.points == score_at(s, user, ledger.sequence) + points
                &&& is.won_bets == was.won_bets
                &&& is.lost_bets == was.lost_bets
                &&& is.bonus_bets == was.bonus_bets + 1
                &&& o.state.stats_epoch.dom().contains(user)
                &&& o.state.stats_epoch[user] == week_of(ledger.sequence)
                &&& o.state.top == s.top.updated(user, is.points, o.state.stats_epoch[user])
                &&& o.state.pending == s.pending
                &&& only_concerns(s, o.state, user)
                &&& tokens_tallied(s, o.state, user, tokens)
                &&& o.effects == seq![
                    Effect::RequireAuth(caller),
                    Effect::Publish(
                        Event::BonusScored {
                            user,
                            points: is.points,
                            bonus_bets: is.bonus_bets,
                        },
                    ),
                ] + mint_asked(s, user, tokens)
                &&& own_renewed(
                    o.renewed,
                    user,
                    tokens > 0,
                    s.top.updated_renews(user, is.points, o.state.stats_epoch[user]),
                )
                &&& o.instance_renewed
            }
        }),
{
}

/// Which penalties are taken off, and why each of the others is not, and what one
/// does: for the market contract alone, with points to take, from a player who is not
/// banned. The score of the moment is lower by the points and never below nothing; no
/// count changes, nothing is minted, and the list learns of the new score.
pub proof fn law_penalties_are_taken_off(
    s: LeaderboardState,
    ledger: Ledger,
    caller: Address,
    user: Address,
    points: u64,
)
    ensures
        ({
            let r = s.penalize(ledger, caller, user, points);
            &&& goes_by(
                r,
                first_error(
                    caller_error(s, s.market_contract, Role::Market, caller),
                    player_error(s, user, points),
                ),
            )
            &&& r matches Ok(o) ==> {
                let was = on_record(s, user);
                let is = on_record(o.state, user);
                let score = score_at(s, user, ledger.sequence);
                &&& o.state.stats.dom().contains(user)
                &&& score >= points ==> is.points == score - points
                &&& score < points ==> is.points == 0
                &&& is.won_bets == was.won_bets
                &&& is.lost_bets == was.lost_bets
                &&& is.bonus_bets == was.bonus_bets
                &&& o.state.stats_epoch.dom().contains(user)
                &&& o.state.stats_epoch[user] == week_of(ledger.sequence)
                &&& o.state.top == s.top.lowered(user, is.points, o.state.stats_epoch[user])
                &&& o.state.pending == s.pending
                &&& o.state.minted == s.minted
                &&& only_concerns(s, o.state, user)
                &&& o.effects == seq![
                    Effect::RequireAuth(caller),
                    Effect::Publish(Event::Penalized { user, points: is.points }),
                ]
                &&& own_renewed(
                    o.renewed,
                    user,
                    false,
                    match s.top.place(user) {
                        Some(i) => set![DataKey::TopPlayerAt(i), DataKey::TopPlayerSlot(user)],
                        None => Set::empty(),
                    },
                )
                &&& o.instance_renewed
            }
        }),
{
}

/// What is queued for a player and not claimed yet.
pub open spec fn in_queue(s: LeaderboardState, user: Address) -> PendingReward {
    match find(s.pending, user) {
        Some(p) => p,
        None => PendingReward { points: 0, tokens: 0, won_delta: 0, lost_delta: 0, bet_delta: 0 },
    }
}

/// Rewards can be queued as they can be scored, by the market contract, and bonuses
/// by the referral contract. Points and tokens add to what is queued; a reward counts
/// one bet and one win or one loss, a bonus one bet alone. Nothing is scored or minted
/// yet, and nobody else's queue changes.
pub proof fn law_rewards_are_queued(
    s: LeaderboardState,
    caller: Address,
    user: Address,
    points: u64,
    tokens: i128,
    is_winner: bool,
    other: Address,
)
    requires
        other != user,
        in_queue(s, user).points + points <= u64::MAX,
        i128::MIN <= in_queue(s, user).tokens + tokens <= i128::MAX,
        in_queue(s, user).won_delta < u32::MAX,
        in_queue(s, user).lost_delta < u32::MAX,
        in_queue(s, user).bet_delta < u32::MAX,
    ensures
        ({
            let reward = s.queue_reward(caller, user, points, tokens, is_winner);
            let bonus = s.queue_bonus_reward(caller, user, points, tokens);
            let was = in_queue(s, user);
            &&& goes_by(
                reward,
                first_error(
                    caller_error(s, s.market_contract, Role::Market, caller),
                    player_error(s, user, points),
                ),
            )
            &&& goes_by(
                bonus,
                first_error(
                    caller_error(s, s.referral_contract, Role::Referral, caller),
                    player_error(s, user, points),
                ),
            )
            &&& reward matches Ok(o) ==> {
                let is = in_queue(o.state, user);
                &&& o.state.pending.dom().contains(user)
                &&& is.points == was.points + points
                &&& is.tokens == was.tokens + tokens
                &&& is.bet_delta == was.bet_delta + 1
                &&& is_winner ==> is.won_delta == was.won_delta + 1 && is.lost_delta
                    == was.lost_delta
                &&& !is_winner ==> is.won_delta == was.won_delta && is.lost_delta == was.lost_delta
                    + 1
                &&& find(o.state.pending, other) == find(s.pending, other)
                &&& o.state == (LeaderboardState { pending: o.state.pending, ..s })
                &&& o.effects == seq![Effect::RequireAuth(caller)]
                &&& o.renewed == set![DataKey::PendingReward(user)]
                &&& o.instance_renewed
            }
            &&& bonus matches Ok(o) ==> {
                let is = in_queue(o.state, user);
                &&& o.state.pending.dom().contains(user)
                &&& is.points == was.points + points
                &&& is.tokens == was.tokens + tokens
                &&& is.bet_delta == was.bet_delta + 1
                &&& is.won_delta == was.won_delta
                &&& is.lost_delta == was.lost_delta
                &&& find(o.state.pending, other) == find(s.pending, other)
                &&& o.state == (LeaderboardState { pending: o.state.pending, ..s })
                &&& o.effects == seq![Effect::RequireAuth(caller)]
                &&& o.renewed == set![DataKey::PendingReward(user)]
                &&& o.instance_renewed
            }
        }),
{
}

/// Anybody can have what is queued for a player scored, unless the contract is paused,
/// the player banned or the tokens cannot be minted. All points, wins and losses are
/// scored at once, every other bet as a bonus, and all tokens are minted; the queue is
/// empty then. Where nothing is queued, nothing happens.
pub proof fn law_queues_are_claimed(
    s: LeaderboardState,
    ledger: Ledger,
    user: Address,
    version: Option<u32>,
)
    requires
        s.wf(),
        score_at(s, user, ledger.sequence) + in_queue(s, user).points <= u64::MAX,
        on_record(s, user).won_bets + in_queue(s, user).won_delta <= u32::MAX,
        on_record(s, user).lost_bets + in_queue(s, user).lost_delta <= u32::MAX,
        on_record(s, user).bonus_bets + in_queue(s, user).bet_delta <= u32::MAX,
        minted_so_far(s, user) + in_queue(s, user).tokens <= i128::MAX,
    ensures
        ({
            let r = s.claim_pending_rewards(ledger, user, version);
            let p = in_queue(s, user);
            let was = on_record(s, user);
            &&& goes_by(
                r,
                if s.paused == Some(true) {
                    Some(LeaderboardError::ContractPaused)
                } else if find(s.banned, user) == Some(true) {
                    Some(LeaderboardError::PlayerBanned)
                } else {
                    mint_error(s, p.tokens, version)
                },
            )
            &&& r matches Ok(o) ==> find(s.pending, user) is None ==> o.state == s && o.effects
                == Seq::<Effect>::empty() && !o.instance_renewed && o.renewed == Set::<
                DataKey,
            >::empty()
            &&& r matches Ok(o) ==> find(s.pending, user) is Some ==> {
                let is = on_record(o.state, user);
                &&& o.state.stats.dom().contains(user)
                &&& is.points == score_at(s, user, ledger.sequence) + p.points
                &&& is.won_bets == was.won_bets + p.won_delta
                &&& is.lost_bets == was.lost_bets + p.lost_delta
                &&& is.bonus_bets == was.bonus_bets + p.bet_delta - p.won_delta - p.lost_delta
                &&& o.state.stats_epoch.dom().contains(user)
                &&& o.state.stats_epoch[user] == week_of(ledger.sequence)
                &&& o.state.top == s.top.updated(user, is.points, o.state.stats_epoch[user])
                &&& find(o.state.pending, user) is None
                &&& tokens_tallied(s, o.state, user, p.tokens)
                &&& only_concerns(s, o.state, user)
                &&& o.effects == mint_asked(s, user, p.tokens)
                &&& own_renewed(
                    o.renewed,
                    user,
                    p.tokens > 0,
                    s.top.updated_renews(user, is.points, o.state.stats_epoch[user]),
                )
                &&& o.instance_renewed
            }
        }),
{
    if s.pending.dom().contains(user) {
        assert(s.pending[user].counted());
    }
}

/// Recording a bet is open to the market contract alone and leaves no trace.
pub proof fn law_recording_leaves_no_trace(s: LeaderboardState, caller: Address)
    ensures
        goes_by(s.record_bet(caller), caller_error(s, s.market_contract, Role::Market, caller)),
        s.record_bet(caller) matches Ok(o) ==> o.state == s && o.effects
            == Seq::<Effect>::empty() && o.renewed == Set::<DataKey>::empty()
            && !o.instance_renewed,
{
}

/// The leaderboard is set up once, with the admin and the contracts that were given
/// and an empty list.
pub proof fn law_set_up_as_told(
    s: LeaderboardState,
    admin: Address,
    market: Address,
    referral: Address,
)
    ensures
        ({
            let r = s.initialize(admin, market, referral);
            &&& s.admin is Some ==> refused_as(r, LeaderboardError::AlreadyInitialized)
            &&& s.admin is None ==> (r matches Ok(o) && {
                &&& o.state.admin == Some(admin)
                &&& o.state.market_contract == Some(market)
                &&& o.state.referral_contract == Some(referral)
                &&& o.state.interface_version == Some(1u32)
                &&& o.state.top.count == Some(0u32)
                &&& o.state.top.min_points == Some(0u64)
                &&& o.state.top.min_slot == Some(0u32)
                &&& o.state.top.at == s.top.at
                &&& o.state.top.slot == s.top.slot
                &&& o.state.top.seq_counter == s.top.seq_counter
                &&& o.state == (LeaderboardState {
                    admin: o.state.admin,
                    market_contract: o.state.market_contract,
                    referral_contract: o.state.referral_contract,
                    interface_version: o.state.interface_version,
                    top: o.state.top,
                    ..s
                })
                &&& o.effects == seq![Effect::RequireAuth(admin)]
                &&& o.renewed == Set::<DataKey>::empty()
                &&& o.instance_renewed
            })
        }),
{
}

/// Nobody but the admin gets through, and nobody at all before there is one.
pub open spec fn admin_only(s: LeaderboardState, caller: Address, r: Verdict) -> bool {
    &&& s.admin is None ==> refused_as(r, LeaderboardError::NotInitialized)
    &&& s.admin is Some && s.admin != Some(caller) ==> refused_as(r, LeaderboardError::NotAdmin)
    &&& r is Ok ==> s.admin == Some(caller)
}

/// The admin alone names the token contract, declares a version and pauses; each call
/// does the one thing it is for.
pub proof fn law_admin_calls_do_one_thing(
    s: LeaderboardState,
    caller: Address,
    token: Address,
    version: u32,
    paused: bool,
)
    ensures
        ({
            let name = s.set_token(caller, token);
            let declare = s.set_interface_version(caller, version);
            let pause = s.set_paused(caller, paused);
            &&& admin_only(s, caller, name)
            &&& admin_only(s, caller, declare)
            &&& admin_only(s, caller, pause)
            &&& s.admin == Some(caller) ==> {
                &&& name matches Ok(o) && o.state == (LeaderboardState {
                    token_contract: Some(token),
                    ..s
                }) && o.effects == seq![Effect::RequireAuth(caller)] && o.instance_renewed
                &&& declare matches Ok(o) && o.state == (LeaderboardState {
                    interface_version: Some(version),
                    ..s
                }) && o.effects == seq![Effect::RequireAuth(caller)] && !o.instance_renewed
                &&& pause matches Ok(o) && o.state == (LeaderboardState {
                    paused: Some(paused),
                    ..s
                }) && o.effects.len() == 2 && o.effects[0] == Effect::RequireAuth(caller) && (
                paused ==> o.effects[1] == Effect::Publish(Event::Paused { admin: caller })) && (
                !paused ==> o.effects[1] == Effect::Publish(Event::Unpaused { admin: caller }))
                    && !o.instance_renewed
            }
        }),
{
}

/// The admin alone revokes and restores trust, in the contract that the name stands
/// for and in no other. A name that stands for no contract is refused.
pub proof fn law_trust_is_revoked_and_restored(
    s: LeaderboardState,
    caller: Address,
    name: Seq<char>,
    role: Role,
    other: Role,
)
    requires
        other != role,
    ensures
        ({
            let off = s.revoke_trust(caller, name);
            let on = s.restore_trust(caller, name);
            let named = match role {
                Role::Market => name == "market"@,
                Role::Referral => name == "referral"@,
                Role::Token => name == "token"@,
            };
            let known = name == "market"@ || name == "referral"@ || name == "token"@;
            &&& admin_only(s, caller, off)
            &&& admin_only(s, caller, on)
            &&& s.admin == Some(caller) && !known ==> refused_as(off, LeaderboardError::InvalidRole)
                && refused_as(on, LeaderboardError::InvalidRole)
            &&& s.admin == Some(caller) && named ==> {
                &&& off matches Ok(o) && {
                    &&& lookup(o.state.revoked, role, false)
                    &&& find(o.state.revoked, other) == find(s.revoked, other)
                    &&& o.state == (LeaderboardState { revoked: o.state.revoked, ..s })
                    &&& o.effects == seq![Effect::RequireAuth(caller)]
                    &&& o.renewed == set![DataKey::TrustRevoked(role)]
                    &&& !o.instance_renewed
                }
                &&& on matches Ok(o) && {
                    &&& !lookup(o.state.revoked, role, false)
                    &&& find(o.state.revoked, other) == find(s.revoked, other)
                    &&& o.state == (LeaderboardState { revoked: o.state.revoked, ..s })
                    &&& o.effects == seq![Effect::RequireAuth(caller)]
                    &&& o.renewed == Set::<DataKey>::empty()
                    &&& !o.instance_renewed
                }
                &&& role_named(name) == Some(role)
            }
            &&& !known ==> role_named(name) is None
        }),
{
    reveal_strlit("market");
    reveal_strlit("referral");
    reveal_strlit("token");
    assert("market"@[0] != "referral"@[0]);
    assert("market"@[0] != "token"@[0]);
    assert("referral"@[0] != "token"@[0]);
}

/// The admin alone removes, bans and resets players. A removal leaves nothing of the
/// player's record and queue, and takes them off the list; a ban does so for good, known
/// or not. A reset keeps their counts, takes their points and their queue, and takes
/// them off the list. Tokens that were minted stay tallied. Nobody else is affected.
pub proof fn law_players_are_removed_banned_and_reset(
    s: LeaderboardState,
    ledger: Ledger,
    caller: Address,
    user: Address,
    other: Address,
)
    requires
        other != user,
    ensures
        ({
            let gone = s.remove_player(ledger, caller, user);
            let out = s.ban_player(ledger, caller, user);
            let back = s.reset_player(ledger, caller, user);
            let listed = exists|i: u32|
                s.top.at.dom().contains(i) && (#[trigger] s.top.at[i]).address == user;
            let scored = s.stats.dom().contains(user);
            let known = scored || s.pending.dom().contains(user) || listed;
            let week = week_of(ledger.sequence);
            &&& admin_only(s, caller, gone)
            &&& admin_only(s, caller, out)
            &&& admin_only(s, caller, back)
            &&& s.admin == Some(caller) && !known ==> refused_as(
                gone,
                LeaderboardError::PlayerNotFound,
            )
            &&& s.admin == Some(caller) && !scored && !listed ==> refused_as(
                back,
                LeaderboardError::PlayerNotFound,
            )
            &&& s.admin == Some(caller) && known ==> (gone matches Ok(o) && {
                &&& find(o.state.stats, user) is None
                &&& find(o.state.stats_epoch, user) is None
                &&& find(o.state.pending, user) is None
                &&& o.state.top == s.top.dropped(user, week as u32)
                &&& o.state.minted == s.minted
                &&& only_concerns(s, o.state, user)
                &&& o.effects == seq![
                    Effect::RequireAuth(caller),
                    Effect::Publish(Event::PlayerRemoved { admin: caller, user }),
                ]
                &&& o.instance_renewed
            })
            &&& s.admin == Some(caller) ==> (out matches Ok(o) && {
                &&& lookup(o.state.banned, user, false)
                &&& find(o.state.banned, other) == find(s.banned, other)
                &&& find(o.state.stats, user) is None
                &&& find(o.state.stats_epoch, user) is None
                &&& find(o.state.pending, user) is None
                &&& o.state.top == s.top.dropped(user, week as u32)
                &&& o.state.minted == s.minted
                &&& find(o.state.stats, other) == find(s.stats, other)
                &&& find(o.state.stats_epoch, other) == find(s.stats_epoch, other)
                &&& find(o.state.pending, other) == find(s.pending, other)
                &&& same_rights(s, o.state)
                &&& o.effects == seq![
                    Effect::RequireAuth(caller),
                    Effect::Publish(Event::PlayerBanned { admin: caller, user }),
                ]
                &&& o.renewed.contains(DataKey::BannedPlayer(user))
                &&& o.instance_renewed
            })
            &&& s.admin == Some(caller) && (scored || listed) ==> (back matches Ok(o) && {
                let was = on_record(s, user);
                let is = on_record(o.state, user);
                &&& o.state.stats.dom().contains(user)
                &&& is.points == 0
                &&& is.won_bets == was.won_bets
                &&& is.lost_bets == was.lost_bets
                &&& is.bonus_bets == was.bonus_bets
                &&& find(o.state.stats_epoch, user) == Some(week as u32)
                &&& find(o.state.pending, user) is None
                &&& o.state.top == s.top.dropped(user, week as u32)
                &&& o.state.minted == s.minted
                &&& only_concerns(s, o.state, user)
                &&& o.effects == seq![
                    Effect::RequireAuth(caller),
                    Effect::Publish(Event::PlayerReset { admin: caller, user }),
                ]
                &&& o.instance_renewed
            })
        }),
{
    if s.top.listed(user) {
        let i = choose|i: u32| s.top.holds(user, i);
        assert(s.top.at.dom().contains(i) && s.top.at[i].address == user);
    }
    assert forall|i: u32|
        s.top.at.dom().contains(i) && (#[trigger] s.top.at[i]).address
            == user implies s.top.listed(user) by {
        assert(s.top.holds(user, i));
    }
}

/// Two different errors are reported under different numbers.
pub proof fn law_errors_are_told_apart(a: LeaderboardError, b: LeaderboardError)
    requires
        a != b,
    ensures
        a.number() != b.number(),
{
}

} // verus!
