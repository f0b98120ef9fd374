//! What callers of the token can rely on, said of the arguments of a call and
//! of the stored records before and after it.
use crate::address::{Address, WasmHash};
use crate::env::{Effect, Event, Ledger};
use crate::pulse_token::laws::{lemma_balance_bounds, lemma_moved, lemma_without};
use crate::pulse_token::model::{
    without, AllowanceValue, DataKey, Done, TokenError, TokenState,
};
use crate::table::{find, lookup};
use vstd::prelude::*;

verus! {

/// A call was refused with this error.
pub open spec fn refused_as(r: Result<Done, TokenError>, e: TokenError) -> bool {
    r is Err && r->Err_0 == e
}

/// What somebody holds.
pub open spec fn held_by(s: TokenState, who: Address) -> int {
    lookup(s.balances, who, 0) as int
}

/// What somebody may still spend of another's tokens.
pub open spec fn spendable(s: TokenState, at: u32, from: Address, spender: Address) -> int {
    if s.allowances.dom().contains((from, spender)) && at <= s.allowances[(
        from,
        spender,
    )].expiration_ledger {
        s.allowances[(from, spender)].amount as int
    } else {
        0
    }
}

/// Nothing but balances, allowances and the supply differs.
pub open spec fn same_settings(s: TokenState, t: TokenState) -> bool {
    &&& t.admin == s.admin
    &&& t.name == s.name
    &&& t.symbol == s.symbol
    &&& t.decimals == s.decimals
    &&& t.max_supply == s.max_supply
    &&& t.interface_version == s.interface_version
    &&& t.paused == s.paused
    &&& t.minters == s.minters
    &&& t.minter_list == s.minter_list
}

/// Nothing but settings differs.
pub open spec fn same_money(s: TokenState, t: TokenState) -> bool {
    &&& t.balances == s.balances
    &&& t.allowances == s.allowances
    &&& t.total_supply == s.total_supply
}

/// A token is set up once, with the metadata, the admin and the ceiling that
/// were given and nothing issued; a ceiling of zero declares none, a negative one
/// is refused.
pub proof fn law_set_up_as_told(
    s: TokenState,
    admin: Address,
    name: Seq<char>,
    symbol: Seq<char>,
    decimals: u32,
    max_supply: i128,
)
    ensures
        ({
            let r = s.initialize(admin, name, symbol, decimals, max_supply);
            &&& s.admin is Some ==> refused_as(r, TokenError::AlreadyInitialized)
            &&& s.admin is None && max_supply < 0 ==> refused_as(r, TokenError::InvalidAmount)
            &&& r is Ok == (s.admin is None && max_supply >= 0)
            &&& r matches Ok(o) ==> {
                &&& o.state.admin == Some(admin)
                &&& o.state.name == Some(name)
                &&& o.state.symbol == Some(symbol)
                &&& o.state.decimals == Some(decimals)
                &&& o.state.total_supply == Some(0i128)
                &&& max_supply > 0 ==> o.state.max_supply == Some(max_supply)
                &&& max_supply == 0 ==> o.state.max_supply is None
                &&& o.state.interface_version == Some(1u32)
                &&& o.state.paused == s.paused
                &&& o.state.minters == s.minters
                &&& o.state.minter_list == s.minter_list
                &&& o.state.balances == s.balances
                &&& o.state.allowances == s.allowances
                &&& o.effects == seq![Effect::RequireAuth(admin)]
                &&& o.renewed == Set::<DataKey>::empty()
                &&& !o.instance_renewed
            }
        }),
{
}

/// Only the admin, once there is one, changes code, pauses or sets the ceiling,
/// and signs for it. Each changes the one thing it is for.
pub proof fn law_admin_calls_do_one_thing(
    s: TokenState,
    caller: Address,
    hash: WasmHash,
    paused: bool,
    new_cap: i128,
)
    ensures
        ({
            let code = s.upgrade(caller, hash);
            let pause = s.set_paused(caller, paused);
            let cap = s.set_max_supply(caller, new_cap);
            &&& s.admin is None ==> refused_as(code, TokenError::NotInitialized) && refused_as(
                pause,
                TokenError::NotInitialized,
            ) && refused_as(cap, TokenError::NotInitialized)
            &&& s.admin is Some && s.admin != Some(caller) ==> refused_as(
                code,
                TokenError::NotAdmin,
            ) && refused_as(pause, TokenError::NotAdmin) && refused_as(cap, TokenError::NotAdmin)
            &&& s.admin == Some(caller) ==> {
                &&& code matches Ok(o) && o.state == s && o.effects == seq![
                    Effect::RequireAuth(caller),
                    Effect::UpdateWasm(hash),
                ] && o.renewed == Set::<DataKey>::empty() && !o.instance_renewed
                &&& pause matches Ok(o) && o.state.paused == Some(paused) && o.state == (
                TokenState { paused: o.state.paused, ..s }) && o.effects == seq![
                    Effect::RequireAuth(caller),
                ] && o.renewed == Set::<DataKey>::empty() && !o.instance_renewed
                &&& new_cap < s.total_supply.unwrap_or(0) ==> refused_as(
                    cap,
                    TokenError::CapBelowCurrentSupply,
                )
                &&& new_cap >= s.total_supply.unwrap_or(0) && (s.max_supply matches Some(c)
                    && new_cap > c) ==> refused_as(cap, TokenError::CapTooHigh)
                &&& new_cap >= s.total_supply.unwrap_or(0) && (s.max_supply matches Some(c)
                    ==> new_cap <= c) ==> (cap matches Ok(o) && o.state.max_supply == Some(new_cap)
                    && o.state == (TokenState { max_supply: o.state.max_supply, ..s }) && o.effects
                    == seq![Effect::RequireAuth(caller)] && o.renewed == Set::<DataKey>::empty()
                    && !o.instance_renewed)
            }
        }),
{
}

/// The admin signs for minters and versions. A minter is added once and removed
/// once; the list keeps everybody else in order, and the right to mint goes with
/// it.
pub proof fn law_minters_come_and_go(
    s: TokenState,
    minter: Address,
    version: u32,
    other: Address,
)
    requires
        s.wf(),
        other != minter,
    ensures
        ({
            let added = s.set_minter(minter);
            let removed = s.remove_minter(minter);
            let declared = s.set_interface_version(version);
            let may = lookup(s.minters, minter, false);
            &&& s.admin is None ==> refused_as(added, TokenError::NotInitialized) && refused_as(
                removed,
                TokenError::NotInitialized,
            ) && refused_as(declared, TokenError::NotInitialized)
            &&& s.admin matches Some(admin) ==> {
                &&& may ==> refused_as(added, TokenError::AlreadyMinter)
                &&& !may ==> refused_as(removed, TokenError::NotMinter)
                &&& !may ==> (added matches Ok(o) && {
                    &&& lookup(o.state.minters, minter, false)
                    &&& o.state.minter_list == s.minter_list.push(minter)
                    &&& find(o.state.minters, other) == find(s.minters, other)
                    &&& o.state == (TokenState {
                        minters: o.state.minters,
                        minter_list: o.state.minter_list,
                        ..s
                    })
                    &&& o.effects == seq![Effect::RequireAuth(admin)]
                    &&& o.renewed == Set::<DataKey>::empty()
                    &&& !o.instance_renewed
                })
                &&& may ==> (removed matches Ok(o) && {
                    &&& !lookup(o.state.minters, minter, false)
                    &&& !o.state.minter_list.contains(minter)
                    &&& o.state.minter_list.contains(other) == s.minter_list.contains(other)
                    &&& o.state.minter_list.len() == s.minter_list.len() - 1
                    &&& find(o.state.minters, other) == find(s.minters, other)
                    &&& o.state == (TokenState {
                        minters: o.state.minters,
                        minter_list: o.state.minter_list,
                        ..s
                    })
                    &&& o.effects == seq![Effect::RequireAuth(admin)]
                    &&& o.renewed == Set::<DataKey>::empty()
                    &&& !o.instance_renewed
                })
                &&& declared matches Ok(o) && o.state.interface_version == Some(version)
                    && o.state == (TokenState {
                    interface_version: o.state.interface_version,
                    ..s
                }) && o.effects == seq![Effect::RequireAuth(admin)] && o.renewed == Set::<
                    DataKey,
                >::empty() && !o.instance_renewed
            }
        }),
{
    lemma_without(s.minter_list, minter);
    lemma_without_one(s.minter_list, minter);
    assert(s.minter_list.contains(minter) == lookup(s.minters, minter, false));
}

/// Taking one of a list without repeats off it leaves the rest in order.
pub proof fn lemma_without_one(list: Seq<Address>, who: Address)
    requires
        list.no_duplicates(),
    ensures
        !list.contains(who) ==> without(list, who) == list,
        list.contains(who) ==> without(list, who).len() == list.len()
            - 1,
    decreases list.len(),
{
    if list.len() > 0 {
        let front = list.drop_last();
        assert(front.no_duplicates());
        lemma_without_one(front, who);
        assert(list =~= front.push(list.last()));
        if list.last() == who {
            assert(!front.contains(who)) by {
                if front.contains(who) {
                    let i = choose|i: int| 0 <= i < front.len() && front[i] == who;
                    assert(list[i] == list[list.len() - 1]);
                }
            }
            assert(list[list.len() - 1] == who);
            assert(list.contains(who));
        } else {
            assert(list.contains(who) == front.contains(who)) by {
                if list.contains(who) {
                    let i = choose|i: int| 0 <= i < list.len() && list[i] == who;
                    assert(front[i] == who);
                }
                if front.contains(who) {
                    let i = choose|i: int| 0 <= i < front.len() && front[i] == who;
                    assert(list[i] == who);
                }
            }
        }
    }
}

/// Those who stay on a list without repeats keep the order they had.
pub proof fn law_removal_keeps_the_order(list: Seq<Address>, who: Address, i: int, j: int)
    requires
        list.no_duplicates(),
        0 <= i < j < list.len(),
        list[i] != who,
        list[j] != who,
    ensures
        ({
            let rest = without(list, who);
            exists|a: int, b: int|
                0 <= a < b < rest.len() && #[trigger] rest[a] == list[i] && #[trigger] rest[b]
                    == list[j]
        }),
    decreases list.len(),
{
    let front = list.drop_last();
    assert(front.no_duplicates());
    let kept = without(front, who);
    let rest = without(list, who);
    if j < front.len() {
        law_removal_keeps_the_order(front, who, i, j);
        assert(front[i] == list[i] && front[j] == list[j]);
        let (a, b) = choose|a: int, b: int|
            0 <= a < b < kept.len() && #[trigger] kept[a] == list[i] && #[trigger] kept[b]
                == list[j];
        assert(rest[a] == list[i] && rest[b] == list[j]);
    } else {
        lemma_without(front, who);
        assert(front[i] == list[i]);
        assert(front.contains(list[i]));
        assert(kept.contains(list[i]));
        let a = choose|a: int| 0 <= a < kept.len() && kept[a] == list[i];
        assert(rest == kept.push(list[j]));
        assert(rest[a] == list[i] && rest[kept.len() as int] == list[j]);
    }
}

/// A mint goes through exactly where the token runs, the amount is positive, the
/// caller may mint and the ceiling leaves room. The whole amount arrives, the
/// supply grows by it, and nobody else notices.
pub proof fn law_mints_arrive_in_full(
    s: TokenState,
    minter: Address,
    to: Address,
    amount: i128,
    other: Address,
)
    requires
        s.wf(),
        other != to,
    ensures
        ({
            let r = s.mint(minter, to, amount);
            let paused = s.paused == Some(true);
            let may = lookup(s.minters, minter, false);
            let issued = s.total_supply.unwrap_or(0) as int;
            let room = s.max_supply matches Some(c) && issued + amount <= c;
            &&& paused ==> refused_as(r, TokenError::ContractPaused)
            &&& !paused && amount <= 0 ==> refused_as(r, TokenError::InvalidAmount)
            &&& !paused && amount > 0 && !may ==> refused_as(r, TokenError::UnauthorizedMinter)
            &&& !paused && amount > 0 && may && !room ==> refused_as(
                r,
                TokenError::MaxSupplyExceeded,
            )
            &&& r is Ok == (!paused && amount > 0 && may && room)
            &&& r matches Ok(o) ==> {
                &&& held_by(o.state, to) == held_by(s, to) + amount
                &&& find(o.state.balances, other) == find(s.balances, other)
                &&& o.state.total_supply.unwrap_or(0) == issued + amount
                &&& o.state.allowances == s.allowances
                &&& same_settings(s, o.state)
                &&& o.effects == seq![
                    Effect::RequireAuth(minter),
                    Effect::Publish(Event::Minted { minter, to, amount }),
                ]
                &&& o.renewed == set![DataKey::Balance(to)]
                &&& o.instance_renewed
            }
        }),
{
    lemma_balance_bounds(s, to);
}

/// A transfer goes through exactly where the token runs, the amount is positive
/// and the sender has it. What leaves one balance arrives in the other; every
/// other balance, the supply, and all allowances stay. The sender signs.
pub proof fn law_transfers_move_the_amount(
    s: TokenState,
    from: Address,
    to: Address,
    amount: i128,
    other: Address,
)
    requires
        s.wf(),
        other != from,
        other != to,
    ensures
        ({
            let r = s.transfer(from, to, amount);
            let paused = s.paused == Some(true);
            &&& paused ==> refused_as(r, TokenError::ContractPaused)
            &&& !paused && amount <= 0 ==> refused_as(r, TokenError::InvalidAmount)
            &&& !paused && amount > 0 && held_by(s, from) < amount ==> refused_as(
                r,
                TokenError::InsufficientBalance,
            )
            &&& r is Ok == (!paused && 0 < amount <= held_by(s, from))
            &&& r matches Ok(o) ==> {
                &&& from != to ==> held_by(o.state, from) == held_by(s, from) - amount
                &&& from != to ==> held_by(o.state, to) == held_by(s, to) + amount
                &&& from == to ==> held_by(o.state, from) == held_by(s, from)
                &&& find(o.state.balances, other) == find(s.balances, other)
                &&& o.state.total_supply == s.total_supply
                &&& o.state.allowances == s.allowances
                &&& same_settings(s, o.state)
                &&& o.effects == seq![Effect::RequireAuth(from)]
                &&& o.renewed == set![DataKey::Balance(from), DataKey::Balance(to)]
                &&& o.instance_renewed
            }
        }),
{
    if s.transfer(from, to, amount) is Ok {
        lemma_balance_bounds(s, from);
        lemma_balance_bounds(s, to);
        lemma_moved(s, from, to, amount);
    }
}

/// A delegated transfer goes through exactly where the token runs, the amount is
/// positive, the allowance covers it and the owner has it. Whatever is left of the
/// allowance, it moves the amount as a transfer does, and takes exactly the amount
/// off that one allowance, which keeps its last ledger. The spender signs.
pub proof fn law_spenders_move_the_amount(
    s: TokenState,
    ledger: Ledger,
    spender: Address,
    from: Address,
    to: Address,
    amount: i128,
    other: Address,
    pair: (Address, Address),
    at: u32,
)
    requires
        s.wf(),
        other != from,
        other != to,
        pair != (from, spender),
    ensures
        ({
            let r = s.transfer_from(ledger, spender, from, to, amount);
            let paused = s.paused == Some(true);
            let allowed = spendable(s, ledger.sequence, from, spender);
            &&& paused ==> refused_as(r, TokenError::ContractPaused)
            &&& !paused && amount <= 0 ==> refused_as(r, TokenError::InvalidAmount)
            &&& !paused && amount > 0 && allowed < amount ==> refused_as(
                r,
                TokenError::InsufficientAllowance,
            )
            &&& !paused && 0 < amount <= allowed && held_by(s, from) < amount ==> refused_as(
                r,
                TokenError::InsufficientBalance,
            )
            &&& r is Ok == (!paused && 0 < amount <= allowed && amount <= held_by(s, from))
            &&& r matches Ok(o) ==> {
                &&& from != to ==> held_by(o.state, from) == held_by(s, from) - amount
                &&& from != to ==> held_by(o.state, to) == held_by(s, to) + amount
                &&& from == to ==> held_by(o.state, from) == held_by(s, from)
                &&& find(o.state.balances, other) == find(s.balances, other)
                &&& o.state.total_supply == s.total_supply
                &&& spendable(o.state, at, from, spender) == if at <= s.allowances[(
                    from,
                    spender,
                )].expiration_ledger {
                    allowed - amount
                } else {
                    0
                }
                &&& allowed == amount ==> !o.state.allowances.dom().contains((from, spender))
                &&& find(o.state.allowances, pair) == find(s.allowances, pair)
                &&& same_settings(s, o.state)
                &&& o.effects == seq![Effect::RequireAuth(spender)]
                &&& o.renewed == set![DataKey::Balance(from), DataKey::Balance(to)]
                &&& o.instance_renewed
            }
        }),
{
    if s.transfer_from(ledger, spender, from, to, amount) is Ok {
        lemma_balance_bounds(s, from);
        lemma_balance_bounds(s, to);
        lemma_moved(s, from, to, amount);
    }
}

/// An allowance replaces the one before it; nothing is what takes it away. It is
/// refused where it is negative or over before it begins. No other allowance and
/// no balance changes. The owner signs, and the entry is kept as long as it is
/// good for.
pub proof fn law_allowances_are_as_granted(
    s: TokenState,
    ledger: Ledger,
    from: Address,
    spender: Address,
    amount: i128,
    expiration_ledger: u32,
    pair: (Address, Address),
)
    requires
        pair != (from, spender),
    ensures
        ({
            let r = s.approve(ledger, from, spender, amount, expiration_ledger);
            let late = amount > 0 && expiration_ledger < ledger.sequence;
            &&& amount < 0 ==> refused_as(r, TokenError::InvalidAmount)
            &&& late ==> refused_as(r, TokenError::InvalidExpirationLedger)
            &&& r is Ok == (amount >= 0 && !late)
            &&& r matches Ok(o) ==> {
                &&& amount == 0 ==> find(o.state.allowances, (from, spender)) is None && o.effects
                    == seq![Effect::RequireAuth(from)]
                &&& amount > 0 ==> find(o.state.allowances, (from, spender)) == Some(
                    AllowanceValue { amount, expiration_ledger },
                )
                &&& amount > 0 ==> o.effects.len() == 2 && o.effects[0] == Effect::RequireAuth(from)
                    && (o.effects[1] matches Effect::KeepAllowance { from: f, spender: p, ledgers }
                    && f == from && p == spender && ledger.sequence + ledgers == expiration_ledger)
                &&& find(o.state.allowances, pair) == find(s.allowances, pair)
                &&& o.state.balances == s.balances
                &&& o.state.total_supply == s.total_supply
                &&& same_settings(s, o.state)
                &&& o.renewed == Set::<DataKey>::empty()
                &&& !o.instance_renewed
            }
        }),
{
}

/// A burn goes through exactly where the token runs, the amount is positive and
/// the owner has it. It leaves the balance and the supply lower by the amount, and
/// nobody else notices. The owner signs.
pub proof fn law_burns_destroy_the_amount(
    s: TokenState,
    from: Address,
    amount: i128,
    other: Address,
)
    requires
        s.wf(),
        other != from,
    ensures
        ({
            let r = s.burn(from, amount);
            let paused = s.paused == Some(true);
            &&& paused ==> refused_as(r, TokenError::ContractPaused)
            &&& !paused && amount <= 0 ==> refused_as(r, TokenError::InvalidAmount)
            &&& !paused && amount > 0 && held_by(s, from) < amount ==> refused_as(
                r,
                TokenError::InsufficientBalance,
            )
            &&& r is Ok == (!paused && 0 < amount <= held_by(s, from))
            &&& r matches Ok(o) ==> {
                &&& held_by(o.state, from) == held_by(s, from) - amount
                &&& o.state.total_supply.unwrap_or(0) == s.total_supply.unwrap_or(0) - amount
                &&& find(o.state.balances, other) == find(s.balances, other)
                &&& o.state.allowances == s.allowances
                &&& same_settings(s, o.state)
                &&& o.effects == seq![Effect::RequireAuth(from)]
                &&& o.renewed == set![DataKey::Balance(from)]
                &&& o.instance_renewed
            }
        }),
{
    lemma_balance_bounds(s, from);
}

/// What the token reports is what is on record.
pub proof fn law_reports_are_the_records(
    s: TokenState,
    ledger: Ledger,
    who: Address,
    from: Address,
    spender: Address,
)
    ensures
        s.balance(who) == held_by(s, who),
        s.is_minter(who) == (find(s.minters, who) == Some(true)),
        s.allowance(ledger, from, spender) == spendable(s, ledger.sequence, from, spender),
        s.supply() == (match s.total_supply {
            Some(n) => n,
            None => 0,
        }),
        s.cap() == (match s.max_supply {
            Some(n) => n,
            None => 0,
        }),
        s.is_paused() == (s.paused == Some(true)),
{
}

/// Two different errors are reported under different numbers.
pub proof fn law_errors_are_told_apart(a: TokenError, b: TokenError)
    requires
        a != b,
    ensures
        a.number() != b.number(),
{
}

/// Settings and money are kept apart: a call that concerns one leaves the other.
pub proof fn law_settings_move_no_money(
    s: TokenState,
    admin: Address,
    who: Address,
    paused: bool,
    version: u32,
    new_cap: i128,
    hash: WasmHash,
)
    ensures
        s.upgrade(admin, hash) matches Ok(o) ==> same_money(s, o.state),
        s.set_paused(admin, paused) matches Ok(o) ==> same_money(s, o.state),
        s.set_minter(who) matches Ok(o) ==> same_money(s, o.state),
        s.remove_minter(who) matches Ok(o) ==> same_money(s, o.state),
        s.set_interface_version(version) matches Ok(o) ==> same_money(s, o.state),
        s.set_max_supply(admin, new_cap) matches Ok(o) ==> same_money(s, o.state),
{
}

} // verus!
