//! What holds of the token as a whole.
use crate::address::{Address, WasmHash};
use crate::env::Ledger;
use crate::pulse_token::model::{holding, moved, without, Done, TokenError, TokenState};
use crate::sums::{lemma_sum_covers, lemma_sum_insert, sum};
use crate::table::lookup;
use vstd::prelude::*;

verus! {

/// Each balance lies between nothing and everything that is held.
pub proof fn lemma_balance_bounds(s: TokenState, a: Address)
    requires
        s.wf(),
    ensures
        0 <= s.balance(a) <= s.held() <= s.supply(),
{
    lemma_share_bounds(s.balances, a);
}

proof fn lemma_share_bounds(balances: Map<Address, i128>, a: Address)
    requires
        balances.dom().finite(),
        forall|k: Address| #[trigger] balances.dom().contains(k) ==> balances[k] >= 0,
    ensures
        0 <= lookup(balances, a, 0) <= sum(balances, holding()),
{
    assert forall|k: Address| balances.dom().contains(k) implies #[trigger] holding()(
        k,
        balances[k],
    ) >= 0 by {}
    lemma_sum_covers(balances, holding());
    if balances.dom().contains(a) {
        assert(holding()(a, balances[a]) <= sum(balances, holding()));
    }
}

/// Moving an amount that the sender has keeps every balance non-negative and
/// the sum of all balances as it was.
pub proof fn lemma_moved(s: TokenState, from: Address, to: Address, amount: i128)
    requires
        s.wf(),
        0 < amount <= s.balance(from),
    ensures
        ({
            let after = moved(s.balances, from, to, amount);
            &&& after.dom().finite()
            &&& sum(after, holding()) == s.held()
            &&& forall|a: Address| #[trigger] after.dom().contains(a) ==> after[a] >= 0
            &&& s.balance(from) - amount >= 0
            &&& lookup(
                s.balances.insert(from, (s.balance(from) - amount) as i128),
                to,
                0,
            ) + amount <= i128::MAX
        }),
{
    lemma_balance_bounds(s, from);
    lemma_balance_bounds(s, to);
    let debited = s.balances.insert(from, (s.balance(from) - amount) as i128);
    lemma_sum_insert(s.balances, holding(), from, (s.balance(from) - amount) as i128);
    assert(sum(debited, holding()) == s.held() - amount);
    lemma_share_bounds(debited, to);
    lemma_sum_insert(debited, holding(), to, (lookup(debited, to, 0) + amount) as i128);
}

/// Any call that can change the token's state.
pub enum TokenCall {
    Initialize {
        admin: Address,
        name: Seq<char>,
        symbol: Seq<char>,
        decimals: u32,
        max_supply: i128,
    },
    Upgrade { admin: Address, hash: WasmHash },
    SetPaused { admin: Address, paused: bool },
    SetMinter { minter: Address },
    RemoveMinter { minter: Address },
    SetInterfaceVersion { version: u32 },
    SetMaxSupply { admin: Address, new_cap: i128 },
    Mint { minter: Address, to: Address, amount: i128 },
    Transfer { from: Address, to: Address, amount: i128 },
    Approve { from: Address, spender: Address, amount: i128, expiration_ledger: u32 },
    TransferFrom { spender: Address, from: Address, to: Address, amount: i128 },
    Burn { from: Address, amount: i128 },
}

impl TokenState {
    pub open spec fn run(self, ledger: Ledger, call: TokenCall) -> Result<Done, TokenError> {
        match call {
            TokenCall::Initialize { admin, name, symbol, decimals, max_supply } => self.initialize(
                admin,
                name,
                symbol,
                decimals,
                max_supply,
            ),
            TokenCall::Upgrade { admin, hash } => self.upgrade(admin, hash),
            TokenCall::SetPaused { admin, paused } => self.set_paused(admin, paused),
            TokenCall::SetMinter { minter } => self.set_minter(minter),
            TokenCall::RemoveMinter { minter } => self.remove_minter(minter),
            TokenCall::SetInterfaceVersion { version } => self.set_interface_version(version),
            TokenCall::SetMaxSupply { admin, new_cap } => self.set_max_supply(admin, new_cap),
            TokenCall::Mint { minter, to, amount } => self.mint(minter, to, amount),
            TokenCall::Transfer { from, to, amount } => self.transfer(from, to, amount),
            TokenCall::Approve { from, spender, amount, expiration_ledger } => self.approve(
                ledger,
                from,
                spender,
                amount,
                expiration_ledger,
            ),
            TokenCall::TransferFrom { spender, from, to, amount } => self.transfer_from(
                ledger,
                spender,
                from,
                to,
                amount,
            ),
            TokenCall::Burn { from, amount } => self.burn(from, amount),
        }
    }

    /// The state after a call, whether it succeeded or was refused.
    pub open spec fn after(self, ledger: Ledger, call: TokenCall) -> TokenState {
        match self.run(ledger, call) {
            Ok(outcome) => outcome.state,
            Err(_) => self,
        }
    }

    /// The state after a history of calls, each at its own ledger.
    pub open spec fn after_all(self, calls: Seq<(Ledger, TokenCall)>) -> TokenState
        decreases calls.len(),
    {
        if calls.len() == 0 {
            self
        } else {
            let last = calls.last();
            self.after_all(calls.drop_last()).after(last.0, last.1)
        }
    }
}

/// No call breaks the token's invariant, and none changes by how much the
/// total supply exceeds what the accounts hold.
pub proof fn law_supply_follows_holdings(s: TokenState, ledger: Ledger, call: TokenCall)
    requires
        s.wf(),
    ensures
        s.after(ledger, call).wf(),
        s.after(ledger, call).supply() - s.after(ledger, call).held() == s.supply() - s.held(),
{
    match call {
        TokenCall::Mint { minter, to, amount } => {
            if s.run(ledger, call) is Ok {
                lemma_balance_bounds(s, to);
                lemma_sum_insert(s.balances, holding(), to, (s.balance(to) + amount) as i128);
            }
        },
        TokenCall::Burn { from, amount } => {
            if s.run(ledger, call) is Ok {
                lemma_balance_bounds(s, from);
                lemma_sum_insert(
                    s.balances,
                    holding(),
                    from,
                    (s.balance(from) - amount) as i128,
                );
            }
        },
        TokenCall::Transfer { from, to, amount } => {
            if s.run(ledger, call) is Ok {
                lemma_moved(s, from, to, amount);
            }
        },
        TokenCall::TransferFrom { spender, from, to, amount } => {
            if s.run(ledger, call) is Ok {
                lemma_moved(s, from, to, amount);
            }
        },
        TokenCall::Initialize { admin, name, symbol, decimals, max_supply } => {
            lemma_balance_bounds(s, admin);
        },
        TokenCall::SetMinter { minter } => {
            lemma_pushed(s.minter_list, minter);
        },
        TokenCall::RemoveMinter { minter } => {
            lemma_without(s.minter_list, minter);
        },
        _ => {},
    }
}

/// After any history of calls on a fresh deployment the total supply is the
/// sum of all balances.
pub proof fn law_total_supply_is_sum_of_balances(calls: Seq<(Ledger, TokenCall)>)
    ensures
        TokenState::blank().after_all(calls).wf(),
        TokenState::blank().after_all(calls).supply() == TokenState::blank().after_all(
            calls,
        ).held(),
    decreases calls.len(),
{
    if calls.len() == 0 {
        crate::sums::lemma_sum_empty(holding());
    } else {
        law_total_supply_is_sum_of_balances(calls.drop_last());
        let last = calls.last();
        law_supply_follows_holdings(
            TokenState::blank().after_all(calls.drop_last()),
            last.0,
            last.1,
        );
    }
}

/// Once the supply is within the ceiling no call takes it above.
pub proof fn law_supply_stays_under_cap(s: TokenState, ledger: Ledger, call: TokenCall)
    requires
        s.wf(),
        s.supply() <= s.cap(),
    ensures
        s.after(ledger, call).supply() <= s.after(ledger, call).cap(),
{
    if let TokenCall::Burn { from, amount } = call {
        if s.run(ledger, call) is Ok {
            lemma_balance_bounds(s, from);
        }
    }
}

/// After any history of calls on a fresh deployment the supply is within the
/// ceiling; without a declared one there is no supply.
pub proof fn law_supply_is_always_under_cap(calls: Seq<(Ledger, TokenCall)>)
    ensures
        TokenState::blank().after_all(calls).supply() <= TokenState::blank().after_all(
            calls,
        ).cap(),
        TokenState::blank().after_all(calls).max_supply is None ==> TokenState::blank().after_all(
            calls,
        ).supply() == 0,
    decreases calls.len(),
{
    law_total_supply_is_sum_of_balances(calls);
    lemma_balance_bounds(TokenState::blank().after_all(calls), Address { id: 0 });
    if calls.len() > 0 {
        let before = calls.drop_last();
        law_supply_is_always_under_cap(before);
        law_total_supply_is_sum_of_balances(before);
        law_supply_stays_under_cap(
            TokenState::blank().after_all(before),
            calls.last().0,
            calls.last().1,
        );
    }
}

/// No call raises a declared ceiling or takes the declaration back.
pub proof fn law_cap_is_never_raised(s: TokenState, ledger: Ledger, call: TokenCall)
    requires
        s.wf(),
        s.max_supply is Some,
    ensures
        s.after(ledger, call).max_supply is Some,
        s.after(ledger, call).cap() <= s.cap(),
{
}

/// However many calls follow, a declared ceiling is never higher than it was,
/// and raising it is refused as such.
pub proof fn law_cap_only_comes_down(
    s: TokenState,
    calls: Seq<(Ledger, TokenCall)>,
    admin: Address,
    new_cap: i128,
)
    requires
        s.wf(),
        s.max_supply is Some,
    ensures
        s.after_all(calls).wf(),
        s.after_all(calls).max_supply is Some,
        s.after_all(calls).cap() <= s.cap(),
        s.after_all(calls).admin == Some(admin) && new_cap > s.cap() && new_cap >= s.after_all(
            calls,
        ).supply() ==> s.after_all(calls).set_max_supply(admin, new_cap) == Err::<
            Done,
            TokenError,
        >(TokenError::CapTooHigh),
    decreases calls.len(),
{
    if calls.len() > 0 {
        let before = calls.drop_last();
        law_cap_only_comes_down(s, before, admin, new_cap);
        law_cap_is_never_raised(s.after_all(before), calls.last().0, calls.last().1);
        law_supply_follows_holdings(s.after_all(before), calls.last().0, calls.last().1);
    }
}

/// Without a ceiling nothing can be minted.
pub proof fn law_no_cap_no_mint(s: TokenState, minter: Address, to: Address, amount: i128)
    requires
        s.cap() == 0,
    ensures
        s.mint(minter, to, amount) is Err,
{
}

/// While the token is paused, nothing is minted, sent or burned, and only
/// the admin can end the pause.
pub proof fn law_pause_halts(s: TokenState, ledger: Ledger, call: TokenCall)
    requires
        s.is_paused(),
    ensures
        (call is Mint || call is Transfer || call is TransferFrom || call is Burn) ==> s.run(
            ledger,
            call,
        ) == Err::<Done, TokenError>(TokenError::ContractPaused),
        (call is Mint || call is Transfer || call is TransferFrom || call is Burn) ==> s.after(
            ledger,
            call,
        ) == s,
        !s.after(ledger, call).is_paused() ==> (call matches TokenCall::SetPaused {
            admin,
            paused,
        } && s.admin == Some(admin) && !paused),
{
}

/// A minted amount arrives in full, and no other account notices.
pub proof fn law_mint_credits_exactly(
    s: TokenState,
    minter: Address,
    to: Address,
    amount: i128,
    other: Address,
)
    requires
        s.wf(),
        other != to,
    ensures
        s.mint(minter, to, amount) matches Ok(o) ==> {
            &&& o.state.balance(to) == s.balance(to) + amount
            &&& o.state.supply() == s.supply() + amount
            &&& o.state.balance(other) == s.balance(other)
        },
{
    lemma_balance_bounds(s, to);
}

/// A transfer takes from the sender exactly what the recipient gains, changes
/// no other balance and no supply.
pub proof fn law_transfer_is_exact(
    s: TokenState,
    from: Address,
    to: Address,
    amount: i128,
    other: Address,
)
    requires
        s.wf(),
        other != from && other != to,
    ensures
        s.transfer(from, to, amount) matches Ok(o) ==> {
            &&& from != to ==> o.state.balance(from) == s.balance(from) - amount
            &&& from != to ==> o.state.balance(to) == s.balance(to) + amount
            &&& from == to ==> o.state.balance(to) == s.balance(to)
            &&& o.state.balance(other) == s.balance(other)
            &&& o.state.supply() == s.supply()
        },
{
    if s.transfer(from, to, amount) is Ok {
        lemma_balance_bounds(s, from);
        lemma_balance_bounds(s, to);
        lemma_moved(s, from, to, amount);
    }
}

/// A spender never moves more than was allowed, and what was moved comes off
/// the allowance.
pub proof fn law_allowance_is_spent_down(
    s: TokenState,
    ledger: Ledger,
    spender: Address,
    from: Address,
    to: Address,
    amount: i128,
)
    ensures
        s.transfer_from(ledger, spender, from, to, amount) matches Ok(o) ==> {
            &&& amount <= s.allowance(ledger, from, spender)
            &&& o.state.allowance(ledger, from, spender) == s.allowance(ledger, from, spender)
                - amount
        },
{
}

/// An allowance reads back as it was granted up to and including its
/// expiration ledger, and as nothing afterwards.
pub proof fn law_allowance_expires(
    s: TokenState,
    granted: Ledger,
    read: Ledger,
    from: Address,
    spender: Address,
    amount: i128,
    expiration_ledger: u32,
)
    ensures
        s.approve(granted, from, spender, amount, expiration_ledger) matches Ok(o)
            ==> o.state.allowance(read, from, spender) == (if read.sequence
            <= expiration_ledger {
            amount
        } else {
            0
        }),
{
}

/// Granting and withdrawing the right to mint undo each other.
pub proof fn law_minter_roles_toggle(s: TokenState, minter: Address)
    ensures
        s.set_minter(minter) matches Ok(o) ==> {
            &&& o.state.is_minter(minter)
            &&& o.state.remove_minter(minter) matches Ok(p) && !p.state.is_minter(minter)
        },
{
}

/// Adding somebody to a list.
pub proof fn lemma_pushed(list: Seq<Address>, who: Address)
    ensures
        list.no_duplicates() && !list.contains(who) ==> list.push(who).no_duplicates(),
        forall|a: Address| #[trigger]
            list.push(who).contains(a) == (list.contains(a) || a == who),
{
    let p = list.push(who);
    assert forall|a: Address| #[trigger] p.contains(a) == (list.contains(a) || a == who) by {
        if list.contains(a) {
            let i = choose|i: int| 0 <= i < list.len() && list[i] == a;
            assert(p[i] == a);
        }
        if a == who {
            assert(p[list.len() as int] == a);
        }
    }
}

/// Taking somebody off a list.
pub proof fn lemma_without(list: Seq<Address>, who: Address)
    ensures
        list.no_duplicates() ==> without(list, who).no_duplicates(),
        forall|a: Address| #[trigger]
            without(list, who).contains(a) == (list.contains(a) && a != who),
    decreases list.len(),
{
    if list.len() > 0 {
        let front = list.drop_last();
        lemma_without(front, who);
        lemma_pushed(front, list.last());
        assert(front.push(list.last()) =~= list);
        if list.no_duplicates() {
            assert(front.no_duplicates());
            assert(!front.contains(list.last()));
        }
        lemma_pushed(without(front, who), list.last());
    }
}

} // verus!
