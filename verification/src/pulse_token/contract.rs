//! The token's entry points.
use crate::address::{Address, WasmHash};
use crate::env::{settles, Effect, Env, Event};
use crate::pulse_token::laws::{lemma_balance_bounds, lemma_moved, lemma_pushed, lemma_without};
use crate::pulse_token::model::{
    without, AllowanceValue, DataKey, PULSETokenContract, TokenError, TokenState, INTERFACE_VERSION,
};
use crate::table::Table;
use vstd::prelude::*;

verus! {

broadcast use crate::table::Table::lemma_finite;

impl PULSETokenContract {
    /// Freshly deployed: nothing is stored yet.
    pub fn new() -> (t: Self)
        ensures
            t@.wf(),
            t@ == TokenState::blank(),
    {
        let t = PULSETokenContract {
            admin: None,
            name: None,
            symbol: None,
            decimals: None,
            total_supply: None,
            max_supply: None,
            interface_version: None,
            paused: None,
            minters: Table::new(),
            minter_list: Vec::new(),
            balances: Table::new(),
            allowances: Table::new(),
        };
        proof {
            crate::sums::lemma_sum_empty(crate::pulse_token::model::holding());
        }
        t
    }

    pub fn initialize(
        &mut self,
        env: &mut Env<DataKey>,
        admin: Address,
        name: String,
        symbol: String,
        decimals: u32,
        max_supply: i128,
    ) -> (r: Result<(), TokenError>)
        ensures
            old(self)@.wf() ==> final(self)@.wf(),
            settles(
                old(self)@.initialize(admin, name@, symbol@, decimals, max_supply),
                (old(self)@, final(self)@),
                (*old(env), *final(env)),
                r,
            ),
    {
        if self.admin.is_some() {
            return Err(TokenError::AlreadyInitialized);
        }
        if max_supply < 0 {
            return Err(TokenError::InvalidAmount);
        }
        proof {
            if self@.wf() {
                lemma_balance_bounds(self@, admin);
            }
        }
        env.ask(Effect::RequireAuth(admin));
        self.admin = Some(admin);
        self.name = Some(name);
        self.symbol = Some(symbol);
        self.decimals = Some(decimals);
        self.total_supply = Some(0);
        self.max_supply = if max_supply > 0 {
            Some(max_supply)
        } else {
            None
        };
        self.interface_version = Some(INTERFACE_VERSION);
        Ok(())
    }

    /// Replace the contract's code in place. Admin only. Balances are kept.
    pub fn upgrade(
        &mut self,
        env: &mut Env<DataKey>,
        admin: Address,
        new_wasm_hash: WasmHash,
    ) -> (r: Result<(), TokenError>)
        ensures
            old(self)@.wf() ==> final(self)@.wf(),
            settles(
                old(self)@.upgrade(admin, new_wasm_hash),
                (old(self)@, final(self)@),
                (*old(env), *final(env)),
                r,
            ),
    {
        let stored = self.require_admin()?;
        if admin != stored {
            return Err(TokenError::NotAdmin);
        }
        env.ask(Effect::RequireAuth(admin));
        env.ask(Effect::UpdateWasm(new_wasm_hash));
        Ok(())
    }

    /// Halt minting, transfers and burning in an emergency. Admin only.
    /// Reading keeps working.
    pub fn pause(&mut self, env: &mut Env<DataKey>, admin: Address) -> (r: Result<
        (),
        TokenError,
    >)
        ensures
            old(self)@.wf() ==> final(self)@.wf(),
            settles(
                old(self)@.set_paused(admin, true),
                (old(self)@, final(self)@),
                (*old(env), *final(env)),
                r,
            ),
    {
        self.set_paused(env, admin, true)
    }

    /// Resume minting, transfers and burning. Admin only.
    pub fn unpause(&mut self, env: &mut Env<DataKey>, admin: Address) -> (r: Result<
        (),
        TokenError,
    >)
        ensures
            old(self)@.wf() ==> final(self)@.wf(),
            settles(
                old(self)@.set_paused(admin, false),
                (old(self)@, final(self)@),
                (*old(env), *final(env)),
                r,
            ),
    {
        self.set_paused(env, admin, false)
    }

    /// `pause` or `unpause`, as `paused` says.
    pub fn set_paused(
        &mut self,
        env: &mut Env<DataKey>,
        admin: Address,
        paused: bool,
    ) -> (r: Result<(), TokenError>)
        ensures
            old(self)@.wf() ==> final(self)@.wf(),
            settles(
                old(self)@.set_paused(admin, paused),
                (old(self)@, final(self)@),
                (*old(env), *final(env)),
                r,
            ),
    {
        let stored = self.require_admin()?;
        if admin != stored {
            return Err(TokenError::NotAdmin);
        }
        env.ask(Effect::RequireAuth(admin));
        self.paused = Some(paused);
        Ok(())
    }

    /// Add an address to the authorized minters. The stored admin must sign.
    pub fn set_minter(&mut self, env: &mut Env<DataKey>, minter: Address) -> (r: Result<
        (),
        TokenError,
    >)
        ensures
            old(self)@.wf() ==> final(self)@.wf(),
            settles(
                old(self)@.set_minter(minter),
                (old(self)@, final(self)@),
                (*old(env), *final(env)),
                r,
            ),
    {
        let admin = self.require_admin()?;
        if self.minters.get_or(minter, false) {
            return Err(TokenError::AlreadyMinter);
        }
        env.ask(Effect::RequireAuth(admin));
        self.minters.set(minter, true);
        self.minter_list.push(minter);
        proof {
            lemma_pushed(old(self)@.minter_list, minter);
        }
        Ok(())
    }

    /// Take an address off the authorized minters. The stored admin must sign.
    pub fn remove_minter(&mut self, env: &mut Env<DataKey>, minter: Address) -> (r: Result<
        (),
        TokenError,
    >)
        ensures
            old(self)@.wf() ==> final(self)@.wf(),
            settles(
                old(self)@.remove_minter(minter),
                (old(self)@, final(self)@),
                (*old(env), *final(env)),
                r,
            ),
    {
        let admin = self.require_admin()?;
        if !self.minters.get_or(minter, false) {
            return Err(TokenError::NotMinter);
        }
        env.ask(Effect::RequireAuth(admin));
        self.minters.remove(minter);
        self.strike(minter);
        proof {
            lemma_without(old(self)@.minter_list, minter);
        }
        Ok(())
    }

    /// Take an address off the list of minters.
    fn strike(&mut self, minter: Address)
        ensures
            final(self)@ == (TokenState {
                minter_list: without(old(self)@.minter_list, minter),
                ..old(self)@
            }),
    {
        let mut kept: Vec<Address> = Vec::new();
        let mut i: usize = 0;
        while i < self.minter_list.len()
            invariant
                i <= self.minter_list@.len(),
                *self == *old(self),
                kept@ == without(self.minter_list@.take(i as int), minter),
            decreases self.minter_list@.len() - i,
        {
            let who: Address = self.minter_list[i];
            if who != minter {
                kept.push(who);
            }
            assert(self.minter_list@.take(i + 1).drop_last() =~= self.minter_list@.take(i as int));
            assert(self.minter_list@.take(i + 1).last() == who);
            i = i + 1;
        }
        assert(self.minter_list@.take(i as int) =~= self.minter_list@);
        self.minter_list = kept;
    }

    /// The authorized minters, in the order in which they were authorized.
    pub fn get_authorized_minters(&self) -> (list: Vec<Address>)
        requires
            self@.wf(),
        ensures
            list@ == self@.minter_list,
            list@.no_duplicates(),
            forall|a: Address| #[trigger] list@.contains(a) == self@.is_minter(a),
    {
        let mut list: Vec<Address> = Vec::new();
        let mut i: usize = 0;
        while i < self.minter_list.len()
            invariant
                i <= self.minter_list@.len(),
                list@ == self.minter_list@.take(i as int),
            decreases self.minter_list@.len() - i,
        {
            list.push(self.minter_list[i]);
            i = i + 1;
            assert(self.minter_list@.take(i as int) =~= self.minter_list@.take(i - 1).push(
                self.minter_list@[i - 1],
            ));
        }
        assert(list@ =~= self.minter_list@);
        list
    }

    /// The declared interface version. 0 means that none was declared, which
    /// callers treat as incompatible with any requirement.
    pub fn interface_version(&self) -> (v: u32)
        ensures
            v == self@.interface_version.unwrap_or(0),
    {
        self.interface_version.unwrap_or(0)
    }

    /// Declare the interface version. The stored admin must sign.
    pub fn set_interface_version(&mut self, env: &mut Env<DataKey>, version: u32) -> (r: Result<
        (),
        TokenError,
    >)
        ensures
            old(self)@.wf() ==> final(self)@.wf(),
            settles(
                old(self)@.set_interface_version(version),
                (old(self)@, final(self)@),
                (*old(env), *final(env)),
                r,
            ),
    {
        let admin = self.require_admin()?;
        env.ask(Effect::RequireAuth(admin));
        self.interface_version = Some(version);
        Ok(())
    }

    /// Lower the supply ceiling. Admin only. A declared ceiling is never
    /// raised, not even by way of 0, and never set below what is already
    /// minted; a deployment without a ceiling declares its first one here.
    pub fn set_max_supply(
        &mut self,
        env: &mut Env<DataKey>,
        admin: Address,
        new_cap: i128,
    ) -> (r: Result<(), TokenError>)
        ensures
            old(self)@.wf() ==> final(self)@.wf(),
            settles(
                old(self)@.set_max_supply(admin, new_cap),
                (old(self)@, final(self)@),
                (*old(env), *final(env)),
                r,
            ),
    {
        let stored = self.require_admin()?;
        if admin != stored {
            return Err(TokenError::NotAdmin);
        }
        let current_supply: i128 = self.total_supply();
        if new_cap < current_supply {
            return Err(TokenError::CapBelowCurrentSupply);
        }
        if let Some(current_cap) = self.max_supply {
            if new_cap > current_cap {
                return Err(TokenError::CapTooHigh);
            }
        }
        env.ask(Effect::RequireAuth(admin));
        self.max_supply = Some(new_cap);
        Ok(())
    }

    /// Mint `amount` to `to`. Authorized minters only. Everything is checked
    /// before anything is written, so a refused mint changes no balance and no
    /// supply.
    pub fn mint(
        &mut self,
        env: &mut Env<DataKey>,
        minter: Address,
        to: Address,
        amount: i128,
    ) -> (r: Result<(), TokenError>)
        requires
            old(self)@.wf(),
        ensures
            final(self)@.wf(),
            settles(
                old(self)@.mint(minter, to, amount),
                (old(self)@, final(self)@),
                (*old(env), *final(env)),
                r,
            ),
    {
        self.require_not_paused()?;
        if amount <= 0 {
            return Err(TokenError::InvalidAmount);
        }
        if !self.minters.get_or(minter, false) {
            return Err(TokenError::UnauthorizedMinter);
        }
        let supply: i128 = self.total_supply();
        let cap: i128 = self.max_supply();
        // Overflow counts as exceeding the cap.
        let new_supply: i128 = match supply.checked_add(amount) {
            Some(v) => v,
            None => return Err(TokenError::MaxSupplyExceeded),
        };
        if cap == 0 || new_supply > cap {
            return Err(TokenError::MaxSupplyExceeded);
        }
        let balance: i128 = self.balance(to);
        proof {
            lemma_balance_bounds(self@, to);
            crate::sums::lemma_sum_insert(
                self@.balances,
                crate::pulse_token::model::holding(),
                to,
                (balance + amount) as i128,
            );
        }
        env.ask(Effect::RequireAuth(minter));
        self.balances.set(to, balance + amount);
        self.total_supply = Some(new_supply);
        env.renew(DataKey::Balance(to));
        env.renew_instance();
        env.ask(Effect::Publish(Event::Minted { minter, to, amount }));
        Ok(())
    }

    pub fn transfer(
        &mut self,
        env: &mut Env<DataKey>,
        from: Address,
        to: Address,
        amount: i128,
    ) -> (r: Result<(), TokenError>)
        requires
            old(self)@.wf(),
        ensures
            final(self)@.wf(),
            settles(
                old(self)@.transfer(from, to, amount),
                (old(self)@, final(self)@),
                (*old(env), *final(env)),
                r,
            ),
    {
        self.require_not_paused()?;
        if amount <= 0 {
            return Err(TokenError::InvalidAmount);
        }
        let from_balance: i128 = self.balance(from);
        if from_balance < amount {
            return Err(TokenError::InsufficientBalance);
        }
        env.ask(Effect::RequireAuth(from));
        self.move_balance(env, from, to, amount);
        env.renew_instance();
        Ok(())
    }

    /// Allow `spender` to move up to `amount` on behalf of `from`, up to and
    /// including `expiration_ledger`. An amount of 0 withdraws the allowance.
    pub fn approve(
        &mut self,
        env: &mut Env<DataKey>,
        from: Address,
        spender: Address,
        amount: i128,
        expiration_ledger: u32,
    ) -> (r: Result<(), TokenError>)
        ensures
            old(self)@.wf() ==> final(self)@.wf(),
            settles(
                old(self)@.approve(old(env).ledger, from, spender, amount, expiration_ledger),
                (old(self)@, final(self)@),
                (*old(env), *final(env)),
                r,
            ),
    {
        if amount < 0 {
            return Err(TokenError::InvalidAmount);
        }
        if amount > 0 && expiration_ledger < env.ledger.sequence {
            return Err(TokenError::InvalidExpirationLedger);
        }
        env.ask(Effect::RequireAuth(from));
        if amount == 0 {
            self.allowances.remove((from, spender));
            return Ok(());
        }
        self.allowances.set((from, spender), AllowanceValue { amount, expiration_ledger });
        env.ask(
            Effect::KeepAllowance {
                from,
                spender,
                ledgers: expiration_ledger - env.ledger.sequence,
            },
        );
        Ok(())
    }

    /// The amount that `spender` can still move on behalf of `from`; 0 once
    /// the allowance has expired.
    pub fn allowance(&self, env: &Env<DataKey>, from: Address, spender: Address) -> (amount: i128)
        ensures
            amount == self@.allowance(env.ledger, from, spender),
    {
        match self.allowances.find((from, spender)) {
            Some(a) => if a.expiration_ledger >= env.ledger.sequence {
                a.amount
            } else {
                0
            },
            None => 0,
        }
    }

    /// Move `amount` from `from` to `to`, spending down the allowance that
    /// `from` granted to `spender`.
    pub fn transfer_from(
        &mut self,
        env: &mut Env<DataKey>,
        spender: Address,
        from: Address,
        to: Address,
        amount: i128,
    ) -> (r: Result<(), TokenError>)
        requires
            old(self)@.wf(),
        ensures
            final(self)@.wf(),
            settles(
                old(self)@.transfer_from(old(env).ledger, spender, from, to, amount),
                (old(self)@, final(self)@),
                (*old(env), *final(env)),
                r,
            ),
    {
        self.require_not_paused()?;
        if amount <= 0 {
            return Err(TokenError::InvalidAmount);
        }
        let current_allowance: i128 = self.allowance(env, from, spender);
        if current_allowance < amount {
            return Err(TokenError::InsufficientAllowance);
        }
        let from_balance: i128 = self.balance(from);
        if from_balance < amount {
            return Err(TokenError::InsufficientBalance);
        }
        env.ask(Effect::RequireAuth(spender));
        let remaining: i128 = current_allowance - amount;
        if remaining == 0 {
            self.allowances.remove((from, spender));
        } else {
            let expiration_ledger: u32 = match self.allowances.find((from, spender)) {
                Some(a) => a.expiration_ledger,
                None => env.ledger.sequence,
            };
            self.allowances.set(
                (from, spender),
                AllowanceValue { amount: remaining, expiration_ledger },
            );
        }
        self.move_balance(env, from, to, amount);
        env.renew_instance();
        Ok(())
    }

    /// Move `amount` between balances and keep both entries alive.
    fn move_balance(&mut self, env: &mut Env<DataKey>, from: Address, to: Address, amount: i128)
        requires
            old(self)@.wf(),
            0 < amount <= old(self)@.balance(from),
        ensures
            final(self)@.wf(),
            final(self)@ == (TokenState {
                balances: crate::pulse_token::model::moved(
                    old(self)@.balances,
                    from,
                    to,
                    amount,
                ),
                ..old(self)@
            }),
            final(env).asks(
                *old(env),
                Seq::empty(),
                set![DataKey::Balance(from), DataKey::Balance(to)],
                false,
            ),
    {
        proof {
            lemma_moved(self@, from, to, amount);
        }
        let from_balance: i128 = self.balance(from);
        self.balances.set(from, from_balance - amount);
        let to_balance: i128 = self.balance(to);
        self.balances.set(to, to_balance + amount);
        env.renew(DataKey::Balance(from));
        env.renew(DataKey::Balance(to));
    }

    pub fn burn(&mut self, env: &mut Env<DataKey>, from: Address, amount: i128) -> (r: Result<
        (),
        TokenError,
    >)
        requires
            old(self)@.wf(),
        ensures
            final(self)@.wf(),
            settles(
                old(self)@.burn(from, amount),
                (old(self)@, final(self)@),
                (*old(env), *final(env)),
                r,
            ),
    {
        self.require_not_paused()?;
        if amount <= 0 {
            return Err(TokenError::InvalidAmount);
        }
        let from_balance: i128 = self.balance(from);
        if from_balance < amount {
            return Err(TokenError::InsufficientBalance);
        }
        let supply: i128 = self.total_supply();
        proof {
            lemma_balance_bounds(self@, from);
            crate::sums::lemma_sum_insert(
                self@.balances,
                crate::pulse_token::model::holding(),
                from,
                (from_balance - amount) as i128,
            );
        }
        env.ask(Effect::RequireAuth(from));
        self.balances.set(from, from_balance - amount);
        self.total_supply = Some(supply - amount);
        env.renew(DataKey::Balance(from));
        env.renew_instance();
        Ok(())
    }

    pub fn balance(&self, account: Address) -> (b: i128)
        ensures
            b == self@.balance(account),
    {
        self.balances.get_or(account, 0)
    }

    pub fn total_supply(&self) -> (n: i128)
        ensures
            n == self@.supply(),
    {
        self.total_supply.unwrap_or(0)
    }

    /// The supply ceiling. 0 means that none was ever declared, or that it was
    /// lowered to 0; minting is refused in either state.
    pub fn max_supply(&self) -> (n: i128)
        ensures
            n == self@.cap(),
    {
        self.max_supply.unwrap_or(0)
    }

    pub fn is_paused(&self) -> (b: bool)
        ensures
            b == self@.is_paused(),
    {
        self.paused.unwrap_or(false)
    }

    pub fn paused(&self) -> (b: bool)
        ensures
            b == self@.is_paused(),
    {
        self.is_paused()
    }

    pub fn name(&self) -> (s: String)
        ensures
            s@ == self@.name.unwrap_or("PULSE"@),
    {
        match &self.name {
            Some(s) => s.clone(),
            None => String::from_str("PULSE"),
        }
    }

    pub fn symbol(&self) -> (s: String)
        ensures
            s@ == self@.symbol.unwrap_or("PLSE"@),
    {
        match &self.symbol {
            Some(s) => s.clone(),
            None => String::from_str("PLSE"),
        }
    }

    pub fn decimals(&self) -> (n: u32)
        ensures
            n == self@.decimals.unwrap_or(7),
    {
        self.decimals.unwrap_or(7)
    }

    fn require_admin(&self) -> (r: Result<Address, TokenError>)
        ensures
            r == (match self@.admin {
                Some(a) => Ok::<Address, TokenError>(a),
                None => Err(TokenError::NotInitialized),
            }),
    {
        match self.admin {
            Some(a) => Ok(a),
            None => Err(TokenError::NotInitialized),
        }
    }

    fn require_not_paused(&self) -> (r: Result<(), TokenError>)
        ensures
            r == (if self@.is_paused() {
                Err::<(), TokenError>(TokenError::ContractPaused)
            } else {
                Ok(())
            }),
    {
        if self.is_paused() {
            return Err(TokenError::ContractPaused);
        }
        Ok(())
    }
}

} // verus!
