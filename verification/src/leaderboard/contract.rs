//! The leaderboard's entry points.
use crate::address::Address;
use crate::env::{settles, Effect, Env, Event};
use crate::leaderboard::decay::{current_epoch, decay, entry_points_now, epoch_of};
use crate::leaderboard::ranking::page;
use crate::leaderboard::state::{
    bet_gain, bonus_gain, claim_gain, role_named, version_refusal, LeaderboardContract,
    LeaderboardState,
};
use crate::leaderboard::top_model::{pair, TopList};
use crate::leaderboard::types::{
    DataKey, LeaderboardError, PendingReward, PlayerEntry, PlayerStats, Role, StoredStats,
    EXPECTED_TOKEN_INTERFACE_VERSION, INTERFACE_VERSION, MAX_TOP_PLAYERS, UNRANKED_RANK,
};
use crate::table::{find, Table};
use vstd::prelude::*;

verus! {

impl LeaderboardContract {
    /// Freshly deployed: nothing is stored yet.
    pub fn new() -> (l: Self)
        ensures
            l@.wf(),
            l@ == LeaderboardState::blank(),
    {
        LeaderboardContract {
            admin: None,
            market_contract: None,
            referral_contract: None,
            token_contract: None,
            interface_version: None,
            paused: None,
            top: TopList::new(),
            stats: Table::new(),
            stats_epoch: Table::new(),
            pending: Table::new(),
            banned: Table::new(),
            minted: Table::new(),
            revoked: Table::new(),
        }
    }

    pub fn initialize(
        &mut self,
        env: &mut Env<DataKey>,
        admin: Address,
        market_contract: Address,
        referral_contract: Address,
    ) -> (r: Result<(), LeaderboardError>)
        requires
            old(self)@.wf(),
        ensures
            final(self)@.wf(),
            settles(
                old(self)@.initialize(admin, market_contract, referral_contract),
                (old(self)@, final(self)@),
                (*old(env), *final(env)),
                r,
            ),
    {
        if self.admin.is_some() {
            return Err(LeaderboardError::AlreadyInitialized);
        }
        env.ask(Effect::RequireAuth(admin));
        self.admin = Some(admin);
        self.market_contract = Some(market_contract);
        self.referral_contract = Some(referral_contract);
        self.interface_version = Some(INTERFACE_VERSION);
        self.top.count = Some(0);
        self.top.min_points = Some(0);
        self.top.min_slot = Some(0);
        env.renew_instance();
        Ok(())
    }

    /// Name the token contract that rewards are minted with. Admin only.
    pub fn set_token(&mut self, env: &mut Env<DataKey>, admin: Address, token: Address) -> (r:
        Result<(), LeaderboardError>)
        requires
            old(self)@.wf(),
        ensures
            final(self)@.wf(),
            settles(
                old(self)@.set_token(admin, token),
                (old(self)@, final(self)@),
                (*old(env), *final(env)),
                r,
            ),
    {
        self.write_token_contract(env, admin, token)
    }

    /// The same as `set_token`.
    pub fn set_token_contract(
        &mut self,
        env: &mut Env<DataKey>,
        admin: Address,
        token: Address,
    ) -> (r: Result<(), LeaderboardError>)
        requires
            old(self)@.wf(),
        ensures
            final(self)@.wf(),
            settles(
                old(self)@.set_token(admin, token),
                (old(self)@, final(self)@),
                (*old(env), *final(env)),
                r,
            ),
    {
        self.write_token_contract(env, admin, token)
    }

    fn write_token_contract(
        &mut self,
        env: &mut Env<DataKey>,
        admin: Address,
        token: Address,
    ) -> (r: Result<(), LeaderboardError>)
        requires
            old(self)@.wf(),
        ensures
            final(self)@.wf(),
            settles(
                old(self)@.set_token(admin, token),
                (old(self)@, final(self)@),
                (*old(env), *final(env)),
                r,
            ),
    {
        self.require_admin(admin)?;
        env.ask(Effect::RequireAuth(admin));
        self.token_contract = Some(token);
        env.renew_instance();
        Ok(())
    }

    /// The declared interface version, or 0 where none is stored.
    pub fn interface_version(&self) -> (v: u32)
        ensures
            v == self@.interface_version.unwrap_or(0),
    {
        self.interface_version.unwrap_or(0)
    }

    /// Declare the interface version. Admin only.
    pub fn set_interface_version(
        &mut self,
        env: &mut Env<DataKey>,
        admin: Address,
        version: u32,
    ) -> (r: Result<(), LeaderboardError>)
        requires
            old(self)@.wf(),
        ensures
            final(self)@.wf(),
            settles(
                old(self)@.set_interface_version(admin, version),
                (old(self)@, final(self)@),
                (*old(env), *final(env)),
                r,
            ),
    {
        self.require_admin(admin)?;
        env.ask(Effect::RequireAuth(admin));
        self.interface_version = Some(version);
        Ok(())
    }

    /// Halt scoring in an emergency. Admin only. Reading keeps working.
    pub fn pause(&mut self, env: &mut Env<DataKey>, admin: Address) -> (r: Result<
        (),
        LeaderboardError,
    >)
        requires
            old(self)@.wf(),
        ensures
            final(self)@.wf(),
            settles(
                old(self)@.set_paused(admin, true),
                (old(self)@, final(self)@),
                (*old(env), *final(env)),
                r,
            ),
    {
        self.require_admin(admin)?;
        env.ask(Effect::RequireAuth(admin));
        self.paused = Some(true);
        env.ask(Effect::Publish(Event::Paused { admin }));
        Ok(())
    }

    /// Resume scoring. Admin only.
    pub fn unpause(&mut self, env: &mut Env<DataKey>, admin: Address) -> (r: Result<
        (),
        LeaderboardError,
    >)
        requires
            old(self)@.wf(),
        ensures
            final(self)@.wf(),
            settles(
                old(self)@.set_paused(admin, false),
                (old(self)@, final(self)@),
                (*old(env), *final(env)),
                r,
            ),
    {
        self.require_admin(admin)?;
        env.ask(Effect::RequireAuth(admin));
        self.paused = Some(false);
        env.ask(Effect::Publish(Event::Unpaused { admin }));
        Ok(())
    }

    /// Halt or resume scoring. Admin only.
    pub fn set_paused(&mut self, env: &mut Env<DataKey>, admin: Address, paused: bool) -> (r: Result<
        (),
        LeaderboardError,
    >)
        requires
            old(self)@.wf(),
        ensures
            final(self)@.wf(),
            settles(
                old(self)@.set_paused(admin, paused),
                (old(self)@, final(self)@),
                (*old(env), *final(env)),
                r,
            ),
    {
        if paused {
            self.pause(env, admin)
        } else {
            self.unpause(env, admin)
        }
    }

    pub fn is_paused(&self) -> (b: bool)
        ensures
            b == self@.is_paused(),
    {
        self.paused.unwrap_or(false)
    }

    pub fn paused(&self) -> (b: bool)
        ensures
            b == self@.is_paused(),
    {
        self.is_paused()
    }

    /// Sever the dependency on another contract. Admin only. Everything that
    /// relies on it is refused until the trust is restored, whatever address
    /// is configured for it meanwhile.
    pub fn revoke_trust(&mut self, env: &mut Env<DataKey>, admin: Address, role: String) -> (r:
        Result<(), LeaderboardError>)
        requires
            old(self)@.wf(),
        ensures
            final(self)@.wf(),
            settles(
                old(self)@.revoke_trust(admin, role@),
                (old(self)@, final(self)@),
                (*old(env), *final(env)),
                r,
            ),
    {
        self.require_admin(admin)?;
        match Self::role_of(&role) {
            None => Err(LeaderboardError::InvalidRole),
            Some(known) => {
                env.ask(Effect::RequireAuth(admin));
                self.revoked.set(known, true);
                env.renew(DataKey::TrustRevoked(known));
                Ok(())
            },
        }
    }

    /// Trust another contract again. Admin only. There is no other way to end
    /// a revocation.
    pub fn restore_trust(&mut self, env: &mut Env<DataKey>, admin: Address, role: String) -> (r:
        Result<(), LeaderboardError>)
        requires
            old(self)@.wf(),
        ensures
            final(self)@.wf(),
            settles(
                old(self)@.restore_trust(admin, role@),
                (old(self)@, final(self)@),
                (*old(env), *final(env)),
                r,
            ),
    {
        self.require_admin(admin)?;
        match Self::role_of(&role) {
            None => Err(LeaderboardError::InvalidRole),
            Some(known) => {
                env.ask(Effect::RequireAuth(admin));
                self.revoked.remove(known);
                Ok(())
            },
        }
    }

    pub fn is_trust_revoked(&self, role: String) -> (b: bool)
        ensures
            b == (role_named(role@) matches Some(r) && self@.is_revoked(r)),
    {
        match Self::role_of(&role) {
            Some(known) => self.revoked.get_or(known, false),
            None => false,
        }
    }

    fn role_of(role: &String) -> (r: Option<Role>)
        ensures
            r == role_named(role@),
    {
        if *role == String::from_str("market") {
            Some(Role::Market)
        } else if *role == String::from_str("referral") {
            Some(Role::Referral)
        } else if *role == String::from_str("token") {
            Some(Role::Token)
        } else {
            None
        }
    }

    /// Score a settled bet and mint `tokens` for it. Market contract only.
    /// `token_version` is the interface version that the token contract
    /// reports, if it reports any; it matters only where something is minted.
    pub fn reward(
        &mut self,
        env: &mut Env<DataKey>,
        caller: Address,
        user: Address,
        points: u64,
        tokens: i128,
        is_winner: bool,
        token_version: Option<u32>,
    ) -> (r: Result<(), LeaderboardError>)
        requires
            old(self)@.wf(),
            old(self)@.reward(
                old(env).ledger,
                caller,
                user,
                points,
                tokens,
                is_winner,
                token_version,
            ) is Ok ==> old(self)@.can_gain(
                user,
                epoch_of(old(env).ledger.sequence),
                bet_gain(points, is_winner),
            ) && old(self)@.can_mint(user, tokens),
        ensures
            final(self)@.wf(),
            settles(
                old(self)@.reward(
                    old(env).ledger,
                    caller,
                    user,
                    points,
                    tokens,
                    is_winner,
                    token_version,
                ),
                (old(self)@, final(self)@),
                (*old(env), *final(env)),
                r,
            ),
    {
        self.require_market_contract(caller)?;
        if points == 0 {
            return Err(LeaderboardError::InvalidPoints);
        }
        self.settle_bet(env, caller, user, points, tokens, is_winner, token_version)
    }

    /// Score a settled bet without minting. Market contract only. A bet can be
    /// worth no points.
    pub fn add_pts(
        &mut self,
        env: &mut Env<DataKey>,
        caller: Address,
        user: Address,
        pts: u64,
        is_won: bool,
    ) -> (r: Result<(), LeaderboardError>)
        requires
            old(self)@.wf(),
            old(self)@.add_pts(old(env).ledger, caller, user, pts, is_won) is Ok
                ==> old(self)@.can_gain(
                user,
                epoch_of(old(env).ledger.sequence),
                bet_gain(pts, is_won),
            ),
        ensures
            final(self)@.wf(),
            settles(
                old(self)@.add_pts(old(env).ledger, caller, user, pts, is_won),
                (old(self)@, final(self)@),
                (*old(env), *final(env)),
                r,
            ),
    {
        self.require_market_contract(caller)?;
        self.settle_bet(env, caller, user, pts, 0, is_won, None)
    }

    /// The one way in which a settled bet is scored.
    fn settle_bet(
        &mut self,
        env: &mut Env<DataKey>,
        caller: Address,
        user: Address,
        points: u64,
        tokens: i128,
        is_won: bool,
        token_version: Option<u32>,
    ) -> (r: Result<(), LeaderboardError>)
        requires
            old(self)@.wf(),
            old(self)@.market_contract is Some,
            old(self)@.settle_bet(
                old(env).ledger,
                caller,
                user,
                points,
                tokens,
                is_won,
                token_version,
            ) is Ok ==> old(self)@.can_gain(
                user,
                epoch_of(old(env).ledger.sequence),
                bet_gain(points, is_won),
            ) && old(self)@.can_mint(user, tokens),
        ensures
            final(self)@.wf(),
            settles(
                old(self)@.settle_bet(
                    old(env).ledger,
                    caller,
                    user,
                    points,
                    tokens,
                    is_won,
                    token_version,
                ),
                (old(self)@, final(self)@),
                (*old(env), *final(env)),
                r,
            ),
    {
        self.require_not_banned(user)?;
        self.require_mintable(tokens, token_version)?;
        env.ask(Effect::RequireAuth(caller));
        self.credit_points(env, user, points, is_won);
        self.mint_reward(env, user, tokens);
        Ok(())
    }

    /// Take points away from a player, down to zero. Market contract only.
    /// Bet counts stay, and nobody is listed or unlisted by this.
    pub fn penalize(
        &mut self,
        env: &mut Env<DataKey>,
        caller: Address,
        user: Address,
        points: u64,
    ) -> (r: Result<(), LeaderboardError>)
        requires
            old(self)@.wf(),
        ensures
            final(self)@.wf(),
            settles(
                old(self)@.penalize(old(env).ledger, caller, user, points),
                (old(self)@, final(self)@),
                (*old(env), *final(env)),
                r,
            ),
    {
        self.require_market_contract(caller)?;
        if points == 0 {
            return Err(LeaderboardError::InvalidPoints);
        }
        self.require_not_banned(user)?;
        env.ask(Effect::RequireAuth(caller));
        let mut s: StoredStats = self.stats_for_update(env, user);
        s.points = s.points.saturating_sub(points);
        self.commit_stats(env, user, s);
        self.top.lower(env, user, s.points);
        env.renew_instance();
        env.ask(Effect::Publish(Event::Penalized { user, points: s.points }));
        Ok(())
    }

    /// Queue the reward of a settled bet for a later claim. Market contract
    /// only.
    pub fn queue_reward(
        &mut self,
        env: &mut Env<DataKey>,
        caller: Address,
        user: Address,
        points: u64,
        tokens: i128,
        is_winner: bool,
    ) -> (r: Result<(), LeaderboardError>)
        requires
            old(self)@.wf(),
            old(self)@.queue_reward(caller, user, points, tokens, is_winner) is Ok
                ==> old(self)@.can_queue(
                user,
                points,
                tokens,
                bet_gain(points, is_winner).won,
                bet_gain(points, is_winner).lost,
            ),
        ensures
            final(self)@.wf(),
            settles(
                old(self)@.queue_reward(caller, user, points, tokens, is_winner),
                (old(self)@, final(self)@),
                (*old(env), *final(env)),
                r,
            ),
    {
        self.require_market_contract(caller)?;
        if points == 0 {
            return Err(LeaderboardError::InvalidPoints);
        }
        self.require_not_banned(user)?;
        env.ask(Effect::RequireAuth(caller));
        self.accumulate_pending(env, user, points, tokens, is_winner, false);
        env.renew_instance();
        Ok(())
    }

    /// Queue a bonus for a later claim. Referral contract only.
    pub fn queue_bonus_reward(
        &mut self,
        env: &mut Env<DataKey>,
        caller: Address,
        user: Address,
        points: u64,
        tokens: i128,
    ) -> (r: Result<(), LeaderboardError>)
        requires
            old(self)@.wf(),
            old(self)@.queue_bonus_reward(caller, user, points, tokens) is Ok
                ==> old(self)@.can_queue(user, points, tokens, 0, 0),
        ensures
            final(self)@.wf(),
            settles(
                old(self)@.queue_bonus_reward(caller, user, points, tokens),
                (old(self)@, final(self)@),
                (*old(env), *final(env)),
                r,
            ),
    {
        self.require_referral_contract(caller)?;
        if points == 0 {
            return Err(LeaderboardError::InvalidPoints);
        }
        self.require_not_banned(user)?;
        env.ask(Effect::RequireAuth(caller));
        self.accumulate_pending(env, user, points, tokens, false, true);
        env.renew_instance();
        Ok(())
    }

    /// Score everything that is queued for a player and mint the tokens that
    /// go with it. Anyone may submit this; the rewards are the player's. Where
    /// the mint is refused the queue stays as it is.
    pub fn claim_pending_rewards(
        &mut self,
        env: &mut Env<DataKey>,
        user: Address,
        token_version: Option<u32>,
    ) -> (r: Result<(), LeaderboardError>)
        requires
            old(self)@.wf(),
            old(self)@.claim_pending_rewards(old(env).ledger, user, token_version) is Ok
                && old(self)@.pending.dom().contains(user) ==> {
                let p = old(self)@.pending[user];
                &&& p.won_delta + p.lost_delta <= u32::MAX
                &&& old(self)@.can_gain(
                    user,
                    epoch_of(old(env).ledger.sequence),
                    claim_gain(p),
                )
                &&& old(self)@.can_mint(user, p.tokens)
            },
        ensures
            final(self)@.wf(),
            settles(
                old(self)@.claim_pending_rewards(old(env).ledger, user, token_version),
                (old(self)@, final(self)@),
                (*old(env), *final(env)),
                r,
            ),
    {
        self.require_not_paused()?;
        self.require_not_banned(user)?;
        let pending: PendingReward = match self.pending.find(user) {
            Some(p) => p,
            None => return Ok(()),
        };
        self.require_mintable(pending.tokens, token_version)?;
        self.mint_reward(env, user, pending.tokens);
        self.pending.remove(user);
        let mut s: StoredStats = self.stats_for_update(env, user);
        s.points = s.points + pending.points;
        s.won_bets = s.won_bets + pending.won_delta;
        s.lost_bets = s.lost_bets + pending.lost_delta;
        s.bonus_bets = s.bonus_bets + pending.bet_delta.saturating_sub(
            pending.won_delta + pending.lost_delta,
        );
        self.commit_stats(env, user, s);
        self.top.update_top_players(env, user, s.points);
        env.renew_instance();
        Ok(())
    }

    pub fn get_pending_reward(&self, user: Address) -> (p: Option<PendingReward>)
        ensures
            p == find(self@.pending, user),
    {
        self.pending.find(user)
    }

    /// Score a bonus and mint `tokens` for it. Referral contract only.
    pub fn reward_bonus(
        &mut self,
        env: &mut Env<DataKey>,
        caller: Address,
        user: Address,
        pts: u64,
        tokens: i128,
        token_version: Option<u32>,
    ) -> (r: Result<(), LeaderboardError>)
        requires
            old(self)@.wf(),
            old(self)@.settle_bonus(
                old(env).ledger,
                caller,
                user,
                pts,
                tokens,
                token_version,
            ) is Ok ==> old(self)@.can_gain(
                user,
                epoch_of(old(env).ledger.sequence),
                bonus_gain(pts),
            ) && old(self)@.can_mint(user, tokens),
        ensures
            final(self)@.wf(),
            settles(
                old(self)@.settle_bonus(
                    old(env).ledger,
                    caller,
                    user,
                    pts,
                    tokens,
                    token_version,
                ),
                (old(self)@, final(self)@),
                (*old(env), *final(env)),
                r,
            ),
    {
        self.require_referral_contract(caller)?;
        if pts == 0 {
            return Err(LeaderboardError::InvalidPoints);
        }
        self.require_not_banned(user)?;
        self.require_mintable(tokens, token_version)?;
        env.ask(Effect::RequireAuth(caller));
        self.credit_bonus(env, user, pts);
        self.mint_reward(env, user, tokens);
        Ok(())
    }

    /// Score a bonus without minting. Referral contract only.
    pub fn add_bonus_pts(
        &mut self,
        env: &mut Env<DataKey>,
        caller: Address,
        user: Address,
        pts: u64,
    ) -> (r: Result<(), LeaderboardError>)
        requires
            old(self)@.wf(),
            old(self)@.settle_bonus(old(env).ledger, caller, user, pts, 0, None) is Ok
                ==> old(self)@.can_gain(
                user,
                epoch_of(old(env).ledger.sequence),
                bonus_gain(pts),
            ),
        ensures
            final(self)@.wf(),
            settles(
                old(self)@.settle_bonus(old(env).ledger, caller, user, pts, 0, None),
                (old(self)@, final(self)@),
                (*old(env), *final(env)),
                r,
            ),
    {
        self.reward_bonus(env, caller, user, pts, 0, None)
    }

    /// Bets are counted when they are settled, so reporting one has no effect.
    pub fn record_bet(&mut self, env: &mut Env<DataKey>, caller: Address, _user: Address) -> (r:
        Result<(), LeaderboardError>)
        requires
            old(self)@.wf(),
        ensures
            final(self)@.wf(),
            settles(
                old(self)@.record_bet(caller),
                (old(self)@, final(self)@),
                (*old(env), *final(env)),
                r,
            ),
    {
        self.require_market_contract(caller)
    }

    /// A player's points now. Reading never writes the decayed value back.
    pub fn get_points(&self, env: &Env<DataKey>, user: Address) -> (points: u64)
        ensures
            points == self@.points(user, epoch_of(env.ledger.sequence)),
    {
        self.stats_for_update(env, user).points
    }

    /// A player's record now. Only the points decay; the counts are lifetime
    /// totals.
    pub fn get_stats(&self, env: &Env<DataKey>, user: Address) -> (s: PlayerStats)
        requires
            self@.stored(user).countable(),
        ensures
            s == self@.current(user, epoch_of(env.ledger.sequence)).reported(),
    {
        self.decayed_stats(env, user)
    }

    fn decayed_stats(&self, env: &Env<DataKey>, user: Address) -> (s: PlayerStats)
        requires
            self@.stored(user).countable(),
        ensures
            s == self@.current(user, epoch_of(env.ledger.sequence)).reported(),
    {
        self.stats_for_update(env, user).to_player_stats()
    }

    /// What was minted to a player through the leaderboard.
    pub fn get_minted(&self, user: Address) -> (n: i128)
        ensures
            n == self@.minted_to(user),
    {
        self.minted.get_or(user, 0)
    }

    /// The rank of a player, counted from 1, on the scores of the moment;
    /// `UNRANKED_RANK` for anyone not listed. Looking a player up corrects the
    /// slot noted for them.
    pub fn get_rank(&mut self, env: &mut Env<DataKey>, user: Address) -> (rank: u32)
        requires
            old(self)@.wf(),
        ensures
            rank == old(self)@.rank(user, epoch_of(old(env).ledger.sequence)),
            final(self)@ == (LeaderboardState {
                top: old(self)@.top.looked_up(user),
                ..old(self)@
            }),
            final(self)@.wf(),
            final(env).asks(
                *old(env),
                Seq::empty(),
                old(self)@.top.looked_up_renews(user),
                false,
            ),
    {
        let now: u32 = current_epoch(env.ledger.sequence);
        match self.top.top_slot_entry(env, user) {
            None => UNRANKED_RANK,
            Some((_slot, entry)) => {
                let mine: u64 = entry_points_now(&entry, now);
                1 + self.top.count_above(now, mine)
            },
        }
    }

    /// The number of listed players.
    pub fn get_top_player_count(&self) -> (n: u32)
        ensures
            n == self@.top.len(),
    {
        self.top.top_count()
    }

    pub fn get_player_count(&self) -> (n: u32)
        ensures
            n == self@.top.len(),
    {
        self.top.top_count()
    }

    /// A page of the list, ranked on the scores of the moment.
    pub fn get_top_players(&self, env: &Env<DataKey>, offset: u32, page_size: u32) -> (result: Vec<
        PlayerEntry,
    >)
        requires
            self@.top.len() <= MAX_TOP_PLAYERS,
        ensures
            result@ == page(self@.top, epoch_of(env.ledger.sequence), offset, page_size),
    {
        self.top.ranked_page(current_epoch(env.ledger.sequence), offset, page_size)
    }

    /// The score of the first to leave the list, now.
    pub fn get_min_points(&self, env: &Env<DataKey>) -> (points: u64)
        ensures
            points == (match find(self@.top.at, self@.top.least_slot()) {
                Some(e) => e.points_at(epoch_of(env.ledger.sequence)),
                None => self@.top.min_points.unwrap_or(0),
            }),
    {
        match self.top.forward_entry(self.get_min_slot()) {
            Some(e) => entry_points_now(&e, current_epoch(env.ledger.sequence)),
            None => self.top.min_points.unwrap_or(0),
        }
    }

    pub fn get_min_slot(&self) -> (slot: u32)
        ensures
            slot == self@.top.least_slot(),
    {
        self.top.min_slot.unwrap_or(0)
    }

    /// Close up slots that have gone missing and note everybody's slot anew.
    /// Anyone may call this.
    pub fn reconcile_top_slots(&mut self, env: &mut Env<DataKey>)
        requires
            old(self)@.wf(),
        ensures
            final(self)@.wf(),
            final(self)@ == (LeaderboardState {
                top: old(self)@.top.repaired(epoch_of(old(env).ledger.sequence)),
                ..old(self)@
            }),
            final(env).asks(
                *old(env),
                Seq::empty(),
                crate::leaderboard::top_model::pairs(old(self)@.top.list()),
                true,
            ),
    {
        proof {
            crate::leaderboard::top_proofs::lemma_repaired(
                self@.top,
                epoch_of(env.ledger.sequence),
            );
        }
        self.top.repair_top_index(env);
    }

    /// Keep a player's record and place in the list alive. Anyone may call
    /// this.
    pub fn refresh_player_ttl(&mut self, env: &mut Env<DataKey>, user: Address)
        requires
            old(self)@.wf(),
        ensures
            final(self)@.wf(),
            final(self)@ == (LeaderboardState {
                top: old(self)@.top.looked_up(user),
                ..old(self)@
            }),
            final(env).asks(
                *old(env),
                Seq::empty(),
                (if old(self)@.stats.dom().contains(user) {
                    set![DataKey::Stats(user)]
                } else {
                    Set::empty()
                }).union(
                    match old(self)@.top.place(user) {
                        Some(i) => pair(i, user),
                        None => Set::empty(),
                    },
                ),
                true,
            ),
    {
        if self.stats.has(user) {
            env.renew(DataKey::Stats(user));
        }
        if let Some((slot, _entry)) = self.top.top_slot_entry(env, user) {
            env.renew(DataKey::TopPlayerAt(slot));
            env.renew(DataKey::TopPlayerSlot(user));
        }
        env.renew_instance();
    }

    /// Erase a player's record, queued rewards and place in the list. Admin
    /// only. The player may start over.
    pub fn remove_player(&mut self, env: &mut Env<DataKey>, admin: Address, user: Address) -> (r:
        Result<(), LeaderboardError>)
        requires
            old(self)@.wf(),
        ensures
            final(self)@.wf(),
            settles(
                old(self)@.remove_player(old(env).ledger, admin, user),
                (old(self)@, final(self)@),
                (*old(env), *final(env)),
                r,
            ),
    {
        self.require_admin(admin)?;
        let has_stats: bool = self.stats.has(user);
        let has_pending: bool = self.pending.has(user);
        if !has_stats && !has_pending && !self.top.is_listed(user) {
            return Err(LeaderboardError::PlayerNotFound);
        }
        env.ask(Effect::RequireAuth(admin));
        self.stats.remove(user);
        self.stats_epoch.remove(user);
        self.pending.remove(user);
        self.unlist(env, user);
        env.renew_instance();
        env.ask(Effect::Publish(Event::PlayerRemoved { admin, user }));
        Ok(())
    }

    /// Ban a player for good: what `remove_player` erases is erased, and from
    /// now on the player earns nothing. Admin only. Banning twice, or banning
    /// an unknown address, is in order.
    pub fn ban_player(&mut self, env: &mut Env<DataKey>, admin: Address, user: Address) -> (r:
        Result<(), LeaderboardError>)
        requires
            old(self)@.wf(),
        ensures
            final(self)@.wf(),
            settles(
                old(self)@.ban_player(old(env).ledger, admin, user),
                (old(self)@, final(self)@),
                (*old(env), *final(env)),
                r,
            ),
    {
        self.require_admin(admin)?;
        env.ask(Effect::RequireAuth(admin));
        self.stats.remove(user);
        self.stats_epoch.remove(user);
        self.pending.remove(user);
        self.unlist(env, user);
        self.banned.set(user, true);
        env.renew(DataKey::BannedPlayer(user));
        env.renew_instance();
        env.ask(Effect::Publish(Event::PlayerBanned { admin, user }));
        Ok(())
    }

    /// Set a player's points to zero and take them off the list, keeping their
    /// bet counts. Admin only. Queued rewards are erased, so that a later
    /// claim cannot undo the reset.
    pub fn reset_player(&mut self, env: &mut Env<DataKey>, admin: Address, user: Address) -> (r:
        Result<(), LeaderboardError>)
        requires
            old(self)@.wf(),
        ensures
            final(self)@.wf(),
            settles(
                old(self)@.reset_player(old(env).ledger, admin, user),
                (old(self)@, final(self)@),
                (*old(env), *final(env)),
                r,
            ),
    {
        self.require_admin(admin)?;
        if !self.stats.has(user) && !self.top.is_listed(user) {
            return Err(LeaderboardError::PlayerNotFound);
        }
        env.ask(Effect::RequireAuth(admin));
        let mut stored: StoredStats = self.load_stored(user);
        stored.points = 0;
        self.commit_stats(env, user, stored);
        self.pending.remove(user);
        self.unlist(env, user);
        env.renew_instance();
        env.ask(Effect::Publish(Event::PlayerReset { admin, user }));
        Ok(())
    }

    pub fn is_banned(&self, user: Address) -> (b: bool)
        ensures
            b == self@.is_banned(user),
    {
        self.banned.get_or(user, false)
    }

    /// Take a player off the list, if they are on it, and close the gap.
    fn unlist(&mut self, env: &mut Env<DataKey>, user: Address)
        requires
            old(self)@.wf(),
            old(self)@.admin is Some,
        ensures
            final(self)@.wf(),
            final(self)@ == (LeaderboardState {
                top: old(self)@.top.dropped(user, epoch_of(old(env).ledger.sequence)),
                ..old(self)@
            }),
            final(env).ledger == old(env).ledger,
            final(env).effects@ == old(env).effects@,
            final(env).renewed@.to_set() =~= old(env).renewed@.to_set().union(
                old(self)@.dropped_renews(user),
            ),
    {
        match self.top.resolved_slot(env, user) {
            Some(slot) => {
                self.top.drop_slot(env, slot);
            },
            None => {},
        }
    }

    fn require_admin(&self, admin: Address) -> (r: Result<(), LeaderboardError>)
        ensures
            r == refused(self@.admin_refusal(admin)),
    {
        match self.admin {
            None => Err(LeaderboardError::NotInitialized),
            Some(stored) => if admin != stored {
                Err(LeaderboardError::NotAdmin)
            } else {
                Ok(())
            },
        }
    }

    fn require_not_banned(&self, user: Address) -> (r: Result<(), LeaderboardError>)
        ensures
            r == (if self@.is_banned(user) {
                Err::<(), LeaderboardError>(LeaderboardError::PlayerBanned)
            } else {
                Ok(())
            }),
    {
        if self.is_banned(user) {
            return Err(LeaderboardError::PlayerBanned);
        }
        Ok(())
    }

    fn require_not_paused(&self) -> (r: Result<(), LeaderboardError>)
        ensures
            r == (if self@.is_paused() {
                Err::<(), LeaderboardError>(LeaderboardError::ContractPaused)
            } else {
                Ok(())
            }),
    {
        if self.is_paused() {
            return Err(LeaderboardError::ContractPaused);
        }
        Ok(())
    }

    fn require_market_contract(&self, caller: Address) -> (r: Result<(), LeaderboardError>)
        ensures
            r == refused(self@.market_refusal(caller)),
    {
        self.require_not_paused()?;
        match self.market_contract {
            None => Err(LeaderboardError::NotInitialized),
            Some(market) => if caller != market {
                Err(LeaderboardError::UnauthorizedCaller)
            } else if self.revoked.get_or(Role::Market, false) {
                Err(LeaderboardError::TrustRevoked)
            } else {
                Ok(())
            },
        }
    }

    fn require_referral_contract(&self, caller: Address) -> (r: Result<(), LeaderboardError>)
        ensures
            r == refused(self@.referral_refusal(caller)),
    {
        self.require_not_paused()?;
        match self.referral_contract {
            None => Err(LeaderboardError::NotInitialized),
            Some(referral) => if caller != referral {
                Err(LeaderboardError::UnauthorizedCaller)
            } else if self.revoked.get_or(Role::Referral, false) {
                Err(LeaderboardError::TrustRevoked)
            } else {
                Ok(())
            },
        }
    }

    /// The token contract can be asked to mint: it is trusted, configured, and
    /// reports the interface version that minting relies on.
    fn require_mintable(&self, tokens: i128, token_version: Option<u32>) -> (r: Result<
        (),
        LeaderboardError,
    >)
        ensures
            r == refused(self@.mint_refusal(tokens, token_version)),
    {
        if tokens <= 0 {
            return Ok(());
        }
        if self.revoked.get_or(Role::Token, false) {
            return Err(LeaderboardError::TrustRevoked);
        }
        if self.token_contract.is_none() {
            return Err(LeaderboardError::TokenNotConfigured);
        }
        self.require_compatible_token(token_version)
    }

    fn require_compatible_token(&self, token_version: Option<u32>) -> (r: Result<(), LeaderboardError>)
        ensures
            r == refused(version_refusal(token_version, EXPECTED_TOKEN_INTERFACE_VERSION)),
    {
        match token_version {
            None => Err(LeaderboardError::InterfaceVersionMissing),
            Some(v) => {
                if v < EXPECTED_TOKEN_INTERFACE_VERSION {
                    return Err(LeaderboardError::IncompatibleInterface);
                }
                Ok(())
            },
        }
    }

    /// The token contract whose interface version a call that mints `tokens`
    /// needs to know.
    pub fn token_to_ask(&self, tokens: i128) -> (token: Option<Address>)
        ensures
            token == (if tokens > 0 {
                self@.token_contract
            } else {
                None
            }),
    {
        if tokens > 0 {
            self.token_contract
        } else {
            None
        }
    }

    /// Have `tokens` minted and tally them.
    fn mint_reward(&mut self, env: &mut Env<DataKey>, user: Address, tokens: i128)
        requires
            tokens > 0 ==> old(self)@.token_contract is Some,
            old(self)@.can_mint(user, tokens),
        ensures
            final(self)@ == old(self)@.tallied(user, tokens),
            final(env).asks(
                *old(env),
                old(self)@.minting(user, tokens),
                old(self)@.tallied_renews(user, tokens),
                false,
            ),
    {
        if tokens > 0 {
            if let Some(token) = self.token_contract {
                env.ask(Effect::Mint { token, to: user, amount: tokens });
            }
            let so_far: i128 = self.minted.get_or(user, 0);
            self.minted.set(user, so_far + tokens);
            env.renew(DataKey::Minted(user));
        }
    }

    fn load_stored(&self, user: Address) -> (s: StoredStats)
        ensures
            s == self@.stored(user),
    {
        self.stats.get_or(user, StoredStats::zero())
    }

    fn save_stored(&mut self, env: &mut Env<DataKey>, user: Address, s: StoredStats)
        ensures
            final(self)@ == (LeaderboardState {
                stats: old(self)@.stats.insert(user, s),
                ..old(self)@
            }),
            final(env).asks(*old(env), Seq::empty(), set![DataKey::Stats(user)], false),
    {
        self.stats.set(user, s);
        env.renew(DataKey::Stats(user));
    }

    /// A player's record brought forward to the current epoch.
    fn stats_for_update(&self, env: &Env<DataKey>, user: Address) -> (s: StoredStats)
        ensures
            s == self@.current(user, epoch_of(env.ledger.sequence)),
    {
        let mut s: StoredStats = self.load_stored(user);
        let now: u32 = current_epoch(env.ledger.sequence);
        let written_at: u32 = self.stats_epoch.get_or(user, now);
        s.points = decay(s.points, now.saturating_sub(written_at));
        s
    }

    /// Write a record, stamped with the epoch it is expressed in.
    fn commit_stats(&mut self, env: &mut Env<DataKey>, user: Address, s: StoredStats)
        ensures
            final(self)@ == old(self)@.committed(user, s, epoch_of(old(env).ledger.sequence)),
            final(env).asks(
                *old(env),
                Seq::empty(),
                old(self)@.committed_renews(user),
                false,
            ),
    {
        self.save_stored(env, user, s);
        self.stats_epoch.set(user, current_epoch(env.ledger.sequence));
        env.renew(DataKey::StatsEpoch(user));
    }

    fn credit_points(&mut self, env: &mut Env<DataKey>, user: Address, pts: u64, is_won: bool)
        requires
            old(self)@.wf(),
            old(self)@.admin is Some,
            old(self)@.can_gain(
                user,
                epoch_of(old(env).ledger.sequence),
                bet_gain(pts, is_won),
            ),
        ensures
            final(self)@.wf(),
            ({
                let now = epoch_of(old(env).ledger.sequence);
                let s = old(self)@.gained(user, now, bet_gain(pts, is_won));
                &&& final(self)@ == old(self)@.scored(user, s, now)
                &&& final(env).asks(
                    *old(env),
                    seq![
                        Effect::Publish(
                            Event::BetScored {
                                user,
                                points: s.points,
                                won_bets: s.won_bets,
                                lost_bets: s.lost_bets,
                            },
                        ),
                    ],
                    old(self)@.scored_renews(user, s, now),
                    true,
                )
            }),
    {
        let mut s: StoredStats = self.stats_for_update(env, user);
        s.points = s.points + pts;
        if is_won {
            s.won_bets = s.won_bets + 1;
        } else {
            s.lost_bets = s.lost_bets + 1;
        }
        self.commit_stats(env, user, s);
        self.top.update_top_players(env, user, s.points);
        env.renew_instance();
        env.ask(
            Effect::Publish(
                Event::BetScored {
                    user,
                    points: s.points,
                    won_bets: s.won_bets,
                    lost_bets: s.lost_bets,
                },
            ),
        );
    }

    fn credit_bonus(&mut self, env: &mut Env<DataKey>, user: Address, pts: u64)
        requires
            old(self)@.wf(),
            old(self)@.admin is Some,
            old(self)@.can_gain(user, epoch_of(old(env).ledger.sequence), bonus_gain(pts)),
        ensures
            final(self)@.wf(),
            ({
                let now = epoch_of(old(env).ledger.sequence);
                let s = old(self)@.gained(user, now, bonus_gain(pts));
                &&& final(self)@ == old(self)@.scored(user, s, now)
                &&& final(env).asks(
                    *old(env),
                    seq![
                        Effect::Publish(
                            Event::BonusScored {
                                user,
                                points: s.points,
                                bonus_bets: s.bonus_bets,
                            },
                        ),
                    ],
                    old(self)@.scored_renews(user, s, now),
                    true,
                )
            }),
    {
        let mut s: StoredStats = self.stats_for_update(env, user);
        s.points = s.points + pts;
        s.bonus_bets = s.bonus_bets + 1;
        self.commit_stats(env, user, s);
        self.top.update_top_players(env, user, s.points);
        env.renew_instance();
        env.ask(
            Effect::Publish(
                Event::BonusScored { user, points: s.points, bonus_bets: s.bonus_bets },
            ),
        );
    }

    fn accumulate_pending(
        &mut self,
        env: &mut Env<DataKey>,
        user: Address,
        points: u64,
        tokens: i128,
        is_winner: bool,
        is_bonus: bool,
    )
        requires
            old(self)@.can_queue(
                user,
                points,
                tokens,
                if is_bonus {
                    0
                } else {
                    bet_gain(points, is_winner).won
                },
                if is_bonus {
                    0
                } else {
                    bet_gain(points, is_winner).lost
                },
            ),
        ensures
            final(self)@ == (LeaderboardState {
                pending: old(self)@.pending.insert(
                    user,
                    old(self)@.queued(
                        user,
                        points,
                        tokens,
                        if is_bonus {
                            0
                        } else {
                            bet_gain(points, is_winner).won
                        },
                        if is_bonus {
                            0
                        } else {
                            bet_gain(points, is_winner).lost
                        },
                    ),
                ),
                ..old(self)@
            }),
            final(env).asks(
                *old(env),
                Seq::empty(),
                set![DataKey::PendingReward(user)],
                false,
            ),
    {
        let mut pending: PendingReward = self.pending.get_or(
            user,
            PendingReward { points: 0, tokens: 0, won_delta: 0, lost_delta: 0, bet_delta: 0 },
        );
        pending.points = pending.points + points;
        pending.tokens = pending.tokens + tokens;
        pending.bet_delta = pending.bet_delta + 1;
        if !is_bonus {
            if is_winner {
                pending.won_delta = pending.won_delta + 1;
            } else {
                pending.lost_delta = pending.lost_delta + 1;
            }
        }
        self.pending.set(user, pending);
        env.renew(DataKey::PendingReward(user));
    }

    /// What is left of `points` after `periods` idle decay periods.
    pub fn decay(points: u64, periods: u32) -> (value: u64)
        ensures
            value == crate::leaderboard::decay::decayed(points, periods),
    {
        decay(points, periods)
    }
}

/// A guard's answer as a result.
pub open spec fn refused(e: Option<LeaderboardError>) -> Result<(), LeaderboardError> {
    match e {
        Some(e) => Err(e),
        None => Ok(()),
    }
}

} // verus!
