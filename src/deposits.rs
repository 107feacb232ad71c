//! Deposits and reservations: every deposit that the ledger holds for an
//! account, as a class owner, an approver or the holder of a deposit-held
//! account, is covered by that account's reserved native funds. Genesis
//! establishes this and every command keeps it, with two exceptions:
//! `force_asset_status` handing a class to a new owner (its deposits stay
//! reserved on the former owner), and `transfer_ownership` where the new
//! owner's reserved funds would exceed the balance type.

use crate::model::{
    empty_ledger, genesis_account_step, genesis_asset_step, genesis_metadata_step, genesis_result,
    release_approvals, release_holdings, run_steps, DebitFlags, LedgerModel, TransferFlags,
};
use crate::pallet::GenesisConfig;
use crate::native::{native_of, repatriate_spec, unreserve_spec, NativeAccount};
use crate::records::{Allowance, AssetModel, Holding};
use crate::store::{as_map, lemma_push, seq_sum, unique, Keyed};
use crate::types::{
    AccountId, Approval, AssetAccount, AssetDetails, AssetId, Config, Error, Event, ExistenceReason, MetadataModel, Origin,
};
use vstd::prelude::*;

verus! {

/// The sum of `f` over the entries of a finite map.
pub open spec fn map_sum_kv<K, V>(m: Map<K, V>, f: spec_fn(K, V) -> int) -> int
    decreases m.dom().len(),
    when m.dom().finite()
{
    if m.dom().len() == 0 {
        0
    } else {
        let k = m.dom().choose();
        f(k, m[k]) + map_sum_kv(m.remove(k), f)
    }
}

pub proof fn lemma_map_sum_kv_remove<K, V>(m: Map<K, V>, f: spec_fn(K, V) -> int, k: K)
    requires
        m.dom().finite(),
        m.contains_key(k),
    ensures
        map_sum_kv(m, f) == f(k, m[k]) + map_sum_kv(m.remove(k), f),
    decreases m.dom().len(),
{
    let c = m.dom().choose();
    assert(m.dom().contains(c));
    if c != k {
        lemma_map_sum_kv_remove(m.remove(c), f, k);
        lemma_map_sum_kv_remove(m.remove(k), f, c);
        assert(m.remove(c).remove(k) =~= m.remove(k).remove(c));
    }
}

/// Writing `v` under `k` changes the sum by the change of `k`'s part.
pub proof fn lemma_map_sum_kv_insert<K, V>(m: Map<K, V>, f: spec_fn(K, V) -> int, k: K, v: V)
    requires
        m.dom().finite(),
    ensures
        map_sum_kv(m.insert(k, v), f) == map_sum_kv(m, f) + f(k, v) - (if m.contains_key(k) {
            f(k, m[k])
        } else {
            0
        }),
{
    let m2 = m.insert(k, v);
    lemma_map_sum_kv_remove(m2, f, k);
    assert(m2.remove(k) =~= m.remove(k));
    if m.contains_key(k) {
        lemma_map_sum_kv_remove(m, f, k);
    } else {
        assert(m.remove(k) =~= m);
    }
}

/// Removing `k` takes its part off the sum.
pub proof fn lemma_map_sum_kv_drop<K, V>(m: Map<K, V>, f: spec_fn(K, V) -> int, k: K)
    requires
        m.dom().finite(),
    ensures
        map_sum_kv(m.remove(k), f) == map_sum_kv(m, f) - (if m.contains_key(k) {
            f(k, m[k])
        } else {
            0
        }),
{
    if m.contains_key(k) {
        lemma_map_sum_kv_remove(m, f, k);
    } else {
        assert(m.remove(k) =~= m);
    }
}

pub proof fn lemma_map_sum_kv_nonneg<K, V>(m: Map<K, V>, f: spec_fn(K, V) -> int)
    requires
        m.dom().finite(),
        forall|k: K| #[trigger] m.contains_key(k) ==> f(k, m[k]) >= 0,
    ensures
        map_sum_kv(m, f) >= 0,
    decreases m.dom().len(),
{
    if m.dom().len() > 0 {
        let k = m.dom().choose();
        assert(m.dom().contains(k));
        let r = m.remove(k);
        assert forall|j: K| #[trigger] r.contains_key(j) implies f(j, r[j]) >= 0 by {
            assert(m.contains_key(j));
        }
        lemma_map_sum_kv_nonneg(r, f);
    }
}

/// The deposit that `who` holds for a deposit-held account.
pub open spec fn held_weight(who: AccountId) -> spec_fn(AccountId, AssetAccount) -> int {
    |h: AccountId, a: AssetAccount|
        if h == who {
            match a.reason {
                ExistenceReason::DepositHeld(d) => d as int,
                _ => 0int,
            }
        } else {
            0int
        }
}

/// The deposit that `who` holds for an approval it gave.
pub open spec fn approval_weight(who: AccountId) -> spec_fn((AccountId, AccountId), Approval) -> int {
    |k: (AccountId, AccountId), a: Approval|
        if k.0 == who {
            a.deposit as int
        } else {
            0int
        }
}

/// The metadata deposit of a class; zero without metadata.
pub open spec fn metadata_deposit_of(a: AssetModel) -> int {
    match a.metadata {
        Some(m) => m.deposit as int,
        None => 0,
    }
}

/// What `who` has deposited for one class.
pub open spec fn asset_obligation(a: AssetModel, who: AccountId) -> int {
    (if a.details.owner == who {
        a.details.deposit + metadata_deposit_of(a)
    } else {
        0
    }) + map_sum_kv(a.accounts, held_weight(who)) + map_sum_kv(a.approvals, approval_weight(who))
}

pub open spec fn obligation_weight(who: AccountId) -> spec_fn(AssetId, AssetModel) -> int {
    |id: AssetId, a: AssetModel| asset_obligation(a, who)
}

/// Everything `who` has deposited with the ledger.
pub open spec fn obligation(m: LedgerModel, who: AccountId) -> int {
    map_sum_kv(m.assets, obligation_weight(who))
}

/// The stores of the ledger are finite.
pub open spec fn finite_ledger(m: LedgerModel) -> bool {
    &&& m.assets.dom().finite()
    &&& forall|id: AssetId|
        #[trigger] m.assets.contains_key(id) ==> m.assets[id].accounts.dom().finite()
            && m.assets[id].approvals.dom().finite()
}

/// Every account has at least what it deposited reserved.
pub open spec fn deposits_backed(m: LedgerModel) -> bool {
    &&& finite_ledger(m)
    &&& forall|who: AccountId| #[trigger] native_of(m.native, who).reserved >= obligation(m, who)
}

/// `m2` owes and reserves for each account what `m` does.
pub open spec fn same_backing(m: LedgerModel, m2: LedgerModel) -> bool {
    &&& finite_ledger(m2)
    &&& forall|who: AccountId| #[trigger] obligation(m2, who) == obligation(m, who)
    &&& forall|who: AccountId| #[trigger] native_of(m2.native, who).reserved == native_of(m.native, who).reserved
}

/// Replacing one class changes each obligation by the change of that class's part.
pub proof fn lemma_replace_asset(m: LedgerModel, id: AssetId, a: AssetModel, who: AccountId)
    requires
        finite_ledger(m),
    ensures
        obligation(LedgerModel { assets: m.assets.insert(id, a), ..m }, who) == obligation(m, who)
            + asset_obligation(a, who) - (if m.assets.contains_key(id) {
            asset_obligation(m.assets[id], who)
        } else {
            0
        }),
{
    lemma_map_sum_kv_insert(m.assets, obligation_weight(who), id, a);
}


pub proof fn lemma_backed_same(m: LedgerModel, m2: LedgerModel)
    requires
        deposits_backed(m),
        same_backing(m, m2),
    ensures
        deposits_backed(m2),
{
    assert forall|who: AccountId| #[trigger] native_of(m2.native, who).reserved >= obligation(m2, who) by {
        assert(obligation(m2, who) == obligation(m, who));
    }
}

pub proof fn lemma_same_trans(m1: LedgerModel, m2: LedgerModel, m3: LedgerModel)
    requires
        same_backing(m1, m2),
        same_backing(m2, m3),
    ensures
        same_backing(m1, m3),
{
    assert forall|who: AccountId| #[trigger] obligation(m3, who) == obligation(m1, who) by {
        assert(obligation(m3, who) == obligation(m2, who));
        assert(obligation(m2, who) == obligation(m1, who));
    }
    assert forall|who: AccountId| #[trigger] native_of(m3.native, who).reserved == native_of(m1.native, who).reserved by {
        assert(native_of(m3.native, who).reserved == native_of(m2.native, who).reserved);
        assert(native_of(m2.native, who).reserved == native_of(m1.native, who).reserved);
    }
}

pub proof fn lemma_same_refl(m: LedgerModel)
    requires
        finite_ledger(m),
    ensures
        same_backing(m, m),
{
}

pub proof fn lemma_emit(m: LedgerModel, e: Event)
    requires
        finite_ledger(m),
    ensures
        same_backing(m, m.emit(e)),
{
    assert forall|who: AccountId| #[trigger] obligation(m.emit(e), who) == obligation(m, who) by {
        assert(m.emit(e).assets == m.assets);
    }
}

/// A class replaced by one with the same deposits and finite stores, with
/// the same reserved funds, leaves the backing as it was.
pub proof fn lemma_same_asset_swap(m: LedgerModel, m2: LedgerModel, id: AssetId)
    requires
        finite_ledger(m),
        m.assets.contains_key(id),
        m2.assets == m.assets.insert(id, m2.assets[id]),
        m2.assets[id].accounts.dom().finite(),
        m2.assets[id].approvals.dom().finite(),
        forall|who: AccountId| #[trigger] asset_obligation(m2.assets[id], who) == asset_obligation(
            m.assets[id],
            who,
        ),
        forall|who: AccountId| #[trigger] native_of(m2.native, who).reserved == native_of(m.native, who).reserved,
    ensures
        same_backing(m, m2),
{
    assert forall|i: AssetId| #[trigger] m2.assets.contains_key(i) implies m2.assets[i].accounts.dom().finite()
        && m2.assets[i].approvals.dom().finite() by {
        if i != id {
            assert(m.assets.contains_key(i));
        }
    }
    assert forall|who: AccountId| #[trigger] obligation(m2, who) == obligation(m, who) by {
        lemma_replace_asset(m, id, m2.assets[id], who);
        assert(obligation(LedgerModel { assets: m.assets.insert(id, m2.assets[id]), ..m }, who)
            == obligation(m2, who));
    }
}

pub proof fn lemma_with_supply(m: LedgerModel, id: AssetId, supply: u64)
    requires
        finite_ledger(m),
        m.assets.contains_key(id),
    ensures
        same_backing(m, m.with_supply(id, supply)),
{
    let m2 = m.with_supply(id, supply);
    lemma_same_asset_swap(m, m2, id);
}

pub proof fn lemma_credit(m: LedgerModel, id: AssetId, who: AccountId, amount: u64)
    requires
        finite_ledger(m),
        m.assets.contains_key(id),
    ensures
        same_backing(m, m.credit(id, who, amount)),
{
    let m2 = m.credit(id, who, amount);
    let a = m.assets[id];
    assert forall|w: AccountId| #[trigger] asset_obligation(m2.assets[id], w) == asset_obligation(a, w) by {
        lemma_map_sum_kv_insert(a.accounts, held_weight(w), who, m2.assets[id].accounts[who]);
        assert(m2.assets[id].accounts == a.accounts.insert(who, m2.assets[id].accounts[who]));
    }
    assert forall|w: AccountId| #[trigger] native_of(m2.native, w).reserved == native_of(m.native, w).reserved by {}
    lemma_same_asset_swap(m, m2, id);
}

pub proof fn lemma_take(m: LedgerModel, id: AssetId, who: AccountId, amount: u64)
    requires
        finite_ledger(m),
        m.assets.contains_key(id),
        m.assets[id].accounts.contains_key(who),
    ensures
        same_backing(m, m.take(id, who, amount)),
{
    let m2 = m.take(id, who, amount);
    let a = m.assets[id];
    assert forall|w: AccountId| #[trigger] asset_obligation(m2.assets[id], w) == asset_obligation(a, w) by {
        if m2.assets[id].accounts.contains_key(who) {
            lemma_map_sum_kv_insert(a.accounts, held_weight(w), who, m2.assets[id].accounts[who]);
            assert(m2.assets[id].accounts == a.accounts.insert(who, m2.assets[id].accounts[who]));
        } else {
            lemma_map_sum_kv_drop(a.accounts, held_weight(w), who);
            assert(m2.assets[id].accounts == a.accounts.remove(who));
        }
    }
    assert forall|w: AccountId| #[trigger] native_of(m2.native, w).reserved == native_of(m.native, w).reserved by {}
    lemma_same_asset_swap(m, m2, id);
}


/// The part of `id` in what `who` owes; zero where `id` is not a class.
pub open spec fn part_of(m: LedgerModel, id: AssetId, who: AccountId) -> int {
    if m.assets.contains_key(id) {
        asset_obligation(m.assets[id], who)
    } else {
        0
    }
}

/// One class written, each account's reserve keeping pace with what it owes.
pub proof fn lemma_backed_swap(m: LedgerModel, m2: LedgerModel, id: AssetId)
    requires
        deposits_backed(m),
        m2.assets == m.assets.insert(id, m2.assets[id]),
        m2.assets[id].accounts.dom().finite(),
        m2.assets[id].approvals.dom().finite(),
        forall|who: AccountId|
            #[trigger] native_of(m2.native, who).reserved >= obligation(m, who) + asset_obligation(
                m2.assets[id],
                who,
            ) - part_of(m, id, who),
    ensures
        deposits_backed(m2),
{
    assert forall|i: AssetId| #[trigger] m2.assets.contains_key(i) implies m2.assets[i].accounts.dom().finite()
        && m2.assets[i].approvals.dom().finite() by {
        if i != id {
            assert(m.assets.contains_key(i));
        }
    }
    assert forall|who: AccountId| #[trigger] native_of(m2.native, who).reserved >= obligation(m2, who) by {
        lemma_replace_asset(m, id, m2.assets[id], who);
        assert(obligation(LedgerModel { assets: m.assets.insert(id, m2.assets[id]), ..m }, who)
            == obligation(m2, who));
    }
}

pub proof fn lemma_transfer_same(
    m: LedgerModel,
    id: AssetId,
    source: AccountId,
    dest: AccountId,
    amount: u64,
    need_admin: Option<AccountId>,
    f: TransferFlags,
)
    requires
        finite_ledger(m),
        m.transfer_result(id, source, dest, amount, need_admin, f) is Ok,
    ensures
        same_backing(m, m.transfer_result(id, source, dest, amount, need_admin, f)->Ok_0.1),
{
    if amount == 0 {
        lemma_same_refl(m);
    } else {
        let debit = m.debit(id, source, amount, DebitFlags { keep_alive: f.keep_alive, best_effort: f.best_effort })->Ok_0;
        let credit = if f.burn_dust && debit >= amount {
            amount
        } else {
            debit
        };
        let ev = Event::Transferred { asset_id: id, from: source, to: dest, amount: credit };
        if debit == 0 {
            lemma_same_refl(m);
        } else if source == dest {
            lemma_emit(m, ev);
        } else {
            let credit = if f.burn_dust && debit >= amount {
                amount
            } else {
                debit
            };
            let d = m.assets[id].details;
            let m1 = m.with_supply(id, (d.supply - (debit - credit)) as u64);
            lemma_with_supply(m, id, (d.supply - (debit - credit)) as u64);
            let m2 = m1.credit(id, dest, credit);
            lemma_credit(m1, id, dest, credit);
            lemma_same_trans(m, m1, m2);
            assert(m2.assets[id].accounts.contains_key(source));
            lemma_take(m2, id, source, debit);
            let m3 = m2.take(id, source, debit);
            lemma_same_trans(m, m2, m3);
            lemma_emit(m3, ev);
            lemma_same_trans(m, m3, m3.emit(ev));
        }
    }
}

pub proof fn lemma_decrease_same(
    m: LedgerModel,
    id: AssetId,
    who: AccountId,
    amount: u64,
    f: DebitFlags,
    need_admin: Option<AccountId>,
)
    requires
        finite_ledger(m),
        m.decrease_result(id, who, amount, f, need_admin) is Ok,
    ensures
        same_backing(m, m.decrease_result(id, who, amount, f, need_admin)->Ok_0.1),
{
    if amount != 0 {
        let actual = m.debit(id, who, amount, f)->Ok_0;
        if actual != 0 {
            let m1 = m.with_supply(id, (m.assets[id].details.supply - actual) as u64);
            lemma_with_supply(m, id, (m.assets[id].details.supply - actual) as u64);
            lemma_take(m1, id, who, actual);
            lemma_same_trans(m, m1, m1.take(id, who, actual));
        }
    }
}

pub proof fn lemma_issue_same(m: LedgerModel, id: AssetId, who: AccountId, amount: u64)
    requires
        finite_ledger(m),
        m.assets.contains_key(id),
    ensures
        same_backing(m, m.issue(id, who, amount)),
{
    let m1 = m.with_supply(id, (m.assets[id].details.supply + amount) as u64);
    lemma_with_supply(m, id, (m.assets[id].details.supply + amount) as u64);
    lemma_credit(m1, id, who, amount);
    lemma_same_trans(m, m1, m1.credit(id, who, amount));
}

/// `mint` keeps every deposit covered.
pub proof fn lemma_mint_keeps_deposits_backed(m: LedgerModel, caller: AccountId, id: AssetId, amount: u64)
    requires
        deposits_backed(m),
        m.mint_result(caller, id, amount) is Ok,
    ensures
        deposits_backed(m.mint_result(caller, id, amount)->Ok_0),
{
    if amount != 0 {
        lemma_issue_same(m, id, m.assets[id].details.owner, amount);
        lemma_backed_same(m, m.issue(id, m.assets[id].details.owner, amount));
    }
}

/// `mint_into` keeps every deposit covered.
pub proof fn lemma_mint_into_keeps_deposits_backed(m: LedgerModel, id: AssetId, who: AccountId, amount: u64)
    requires
        deposits_backed(m),
        m.mint_into_result(id, who, amount) is Ok,
    ensures
        deposits_backed(m.mint_into_result(id, who, amount)->Ok_0),
{
    if amount != 0 {
        lemma_issue_same(m, id, who, amount);
        lemma_backed_same(m, m.issue(id, who, amount));
    }
}

/// Transfers, forced or not, keep every deposit covered.
pub proof fn lemma_transfer_keeps_deposits_backed(
    m: LedgerModel,
    id: AssetId,
    source: AccountId,
    dest: AccountId,
    amount: u64,
    need_admin: Option<AccountId>,
    f: TransferFlags,
)
    requires
        deposits_backed(m),
        m.transfer_result(id, source, dest, amount, need_admin, f) is Ok,
    ensures
        deposits_backed(m.transfer_result(id, source, dest, amount, need_admin, f)->Ok_0.1),
{
    lemma_transfer_same(m, id, source, dest, amount, need_admin, f);
    lemma_backed_same(m, m.transfer_result(id, source, dest, amount, need_admin, f)->Ok_0.1);
}

/// Burns keep every deposit covered.
pub proof fn lemma_burn_keeps_deposits_backed(
    m: LedgerModel,
    id: AssetId,
    who: AccountId,
    amount: u64,
    need_admin: Option<AccountId>,
)
    requires
        deposits_backed(m),
        m.burn_result(id, who, amount, need_admin) is Ok,
    ensures
        deposits_backed(m.burn_result(id, who, amount, need_admin)->Ok_0),
{
    let f = DebitFlags { keep_alive: false, best_effort: false };
    lemma_decrease_same(m, id, who, amount, f, need_admin);
    let m1 = m.decrease_result(id, who, amount, f, need_admin)->Ok_0.1;
    lemma_backed_same(m, m1);
    let m2 = m.burn_result(id, who, amount, need_admin)->Ok_0;
    assert(m2.assets == m1.assets && m2.native == m1.native);
    assert forall|who2: AccountId| #[trigger] native_of(m2.native, who2).reserved >= obligation(m2, who2) by {
        assert(obligation(m2, who2) == obligation(m1, who2));
    }
}

/// Freezing and thawing accounts keep every deposit covered.
pub proof fn lemma_freeze_keeps_deposits_backed(
    m: LedgerModel,
    caller: AccountId,
    id: AssetId,
    who: AccountId,
    frozen: bool,
)
    requires
        deposits_backed(m),
        m.freeze_result(caller, id, who, frozen) is Ok,
    ensures
        deposits_backed(m.freeze_result(caller, id, who, frozen)->Ok_0),
{
    let m2 = m.freeze_result(caller, id, who, frozen)->Ok_0;
    let a = m.assets[id];
    assert forall|w: AccountId| #[trigger] asset_obligation(m2.assets[id], w) == asset_obligation(a, w) by {
        lemma_map_sum_kv_insert(a.accounts, held_weight(w), who, m2.assets[id].accounts[who]);
        assert(m2.assets[id].accounts == a.accounts.insert(who, m2.assets[id].accounts[who]));
    }
    lemma_same_asset_swap(m, m2, id);
    lemma_backed_same(m, m2);
}

/// Freezing and thawing classes keep every deposit covered.
pub proof fn lemma_freeze_asset_keeps_deposits_backed(m: LedgerModel, caller: AccountId, id: AssetId, frozen: bool)
    requires
        deposits_backed(m),
        m.freeze_asset_result(caller, id, frozen) is Ok,
    ensures
        deposits_backed(m.freeze_asset_result(caller, id, frozen)->Ok_0),
{
    let m2 = m.freeze_asset_result(caller, id, frozen)->Ok_0;
    lemma_same_asset_swap(m, m2, id);
    lemma_backed_same(m, m2);
}

/// `force_asset_status` keeps every deposit covered where it keeps the owner.
pub proof fn lemma_force_asset_status_keeps_deposits_backed(
    m: LedgerModel,
    origin: Origin,
    id: AssetId,
    owner: AccountId,
    issuer: AccountId,
    admin: AccountId,
    freezer: AccountId,
    min_balance: u64,
    is_sufficient: bool,
    is_frozen: bool,
)
    requires
        deposits_backed(m),
        m.force_asset_status_result(origin, id, owner, issuer, admin, freezer, min_balance, is_sufficient, is_frozen) is Ok,
        m.assets[id].details.owner == owner,
    ensures
        deposits_backed(
            m.force_asset_status_result(origin, id, owner, issuer, admin, freezer, min_balance, is_sufficient, is_frozen)->Ok_0,
        ),
{
    let m2 = m.force_asset_status_result(origin, id, owner, issuer, admin, freezer, min_balance, is_sufficient, is_frozen)->Ok_0;
    lemma_same_asset_swap(m, m2, id);
    lemma_backed_same(m, m2);
}


/// A backed ledger stays backed when an event is added.
proof fn lemma_emit_backed(m: LedgerModel, e: Event)
    requires
        deposits_backed(m),
    ensures
        deposits_backed(m.emit(e)),
{
    lemma_emit(m, e);
    lemma_backed_same(m, m.emit(e));
}

proof fn lemma_asset_obligation_nonneg(a: AssetModel, who: AccountId)
    requires
        a.accounts.dom().finite(),
        a.approvals.dom().finite(),
    ensures
        map_sum_kv(a.accounts, held_weight(who)) >= 0,
        map_sum_kv(a.approvals, approval_weight(who)) >= 0,
        asset_obligation(a, who) >= (if a.details.owner == who {
            a.details.deposit + metadata_deposit_of(a)
        } else {
            0
        }),
{
    lemma_map_sum_kv_nonneg(a.accounts, held_weight(who));
    lemma_map_sum_kv_nonneg(a.approvals, approval_weight(who));
}

proof fn lemma_part_le_obligation(m: LedgerModel, id: AssetId, who: AccountId)
    requires
        finite_ledger(m),
        m.assets.contains_key(id),
    ensures
        obligation(m, who) >= asset_obligation(m.assets[id], who),
        asset_obligation(m.assets[id], who) >= (if m.assets[id].details.owner == who {
            m.assets[id].details.deposit + metadata_deposit_of(m.assets[id])
        } else {
            0
        }),
{
    let a = m.assets[id];
    lemma_asset_obligation_nonneg(a, who);
    lemma_map_sum_kv_remove(m.assets, obligation_weight(who), id);
    let rest = m.assets.remove(id);
    assert forall|i: AssetId| #[trigger] rest.contains_key(i) implies obligation_weight(who)(i, rest[i]) >= 0 by {
        assert(m.assets.contains_key(i));
        lemma_asset_obligation_nonneg(rest[i], who);
    }
    lemma_map_sum_kv_nonneg(rest, obligation_weight(who));
}


/// `approve_transfer` keeps every deposit covered: the approval deposit it
/// adds is reserved from the approver.
pub proof fn lemma_approve_keeps_deposits_backed(
    m: LedgerModel,
    id: AssetId,
    owner: AccountId,
    delegate: AccountId,
    amount: u64,
)
    requires
        deposits_backed(m),
        m.approve_result(id, owner, delegate, amount) is Ok,
    ensures
        deposits_backed(m.approve_result(id, owner, delegate, amount)->Ok_0),
{
    let a = m.assets[id];
    let r = m.approve_result(id, owner, delegate, amount)->Ok_0;
    let a2 = r.assets[id];
    let approval = a2.approvals[(owner, delegate)];
    assert(a2.approvals == a.approvals.insert((owner, delegate), approval));
    assert forall|who: AccountId| #[trigger] native_of(r.native, who).reserved >= obligation(m, who)
        + asset_obligation(a2, who) - part_of(m, id, who) by {
        lemma_map_sum_kv_insert(a.approvals, approval_weight(who), (owner, delegate), approval);
        assert(native_of(m.native, who).reserved >= obligation(m, who));
    }
    lemma_backed_swap(m, r, id);
}

proof fn lemma_drop_approval_backed(m: LedgerModel, id: AssetId, owner: AccountId, delegate: AccountId)
    requires
        deposits_backed(m),
        m.assets.contains_key(id),
        m.assets[id].approvals.contains_key((owner, delegate)),
    ensures
        deposits_backed(m.drop_approval(id, owner, delegate)),
{
    let a = m.assets[id];
    let r = m.drop_approval(id, owner, delegate);
    let a2 = r.assets[id];
    assert(a2.approvals == a.approvals.remove((owner, delegate)));
    assert forall|who: AccountId| #[trigger] native_of(r.native, who).reserved >= obligation(m, who)
        + asset_obligation(a2, who) - part_of(m, id, who) by {
        lemma_map_sum_kv_drop(a.approvals, approval_weight(who), (owner, delegate));
        assert(native_of(m.native, who).reserved >= obligation(m, who));
    }
    lemma_backed_swap(m, r, id);
}

/// Cancelling an approval keeps every deposit covered.
pub proof fn lemma_cancel_keeps_deposits_backed(m: LedgerModel, id: AssetId, owner: AccountId, delegate: AccountId)
    requires
        deposits_backed(m),
        m.cancel_result(id, owner, delegate) is Ok,
    ensures
        deposits_backed(m.cancel_result(id, owner, delegate)->Ok_0),
{
    lemma_drop_approval_backed(m, id, owner, delegate);
    lemma_emit_backed(
        m.drop_approval(id, owner, delegate),
        Event::ApprovalCancelled { asset_id: id, owner, delegate },
    );
}

/// A delegated transfer keeps every deposit covered.
pub proof fn lemma_transfer_approved_keeps_deposits_backed(
    m: LedgerModel,
    id: AssetId,
    owner: AccountId,
    delegate: AccountId,
    dest: AccountId,
    amount: u64,
)
    requires
        deposits_backed(m),
        m.transfer_approved_result(id, owner, delegate, dest, amount) is Ok,
    ensures
        deposits_backed(m.transfer_approved_result(id, owner, delegate, dest, amount)->Ok_0),
{
    let f = TransferFlags { keep_alive: false, best_effort: false, burn_dust: false };
    let approval = m.assets[id].approvals[(owner, delegate)];
    lemma_transfer_keeps_deposits_backed(m, id, owner, dest, amount, None, f);
    let m1 = m.transfer_result(id, owner, dest, amount, None, f)->Ok_0.1;
    assert(m1.assets.contains_key(id));
    assert(m1.assets[id].approvals == m.assets[id].approvals);
    let remaining = (approval.amount - amount) as u64;
    let m2 = if remaining == 0 {
        lemma_drop_approval_backed(m1, id, owner, delegate);
        m1.drop_approval(id, owner, delegate)
    } else {
        let a = m1.assets[id];
        let m2 = m1.with_asset(
            id,
            AssetModel {
                approvals: a.approvals.insert((owner, delegate), Approval { amount: remaining, ..approval }),
                ..a
            },
        );
        assert forall|who: AccountId| #[trigger] native_of(m2.native, who).reserved >= obligation(m1, who)
            + asset_obligation(m2.assets[id], who) - part_of(m1, id, who) by {
            lemma_map_sum_kv_insert(
                a.approvals,
                approval_weight(who),
                (owner, delegate),
                Approval { amount: remaining, ..approval },
            );
        }
        lemma_backed_swap(m1, m2, id);
        m2
    };
    lemma_emit_backed(
        m2,
        Event::TransferredApproved { asset_id: id, owner, delegate, destination: dest, amount },
    );
}

/// `touch` keeps every deposit covered: the account deposit is reserved.
pub proof fn lemma_touch_keeps_deposits_backed(m: LedgerModel, who: AccountId, id: AssetId)
    requires
        deposits_backed(m),
        m.touch_result(who, id) is Ok,
    ensures
        deposits_backed(m.touch_result(who, id)->Ok_0),
{
    let a = m.assets[id];
    let r = m.touch_result(who, id)->Ok_0;
    let a2 = r.assets[id];
    assert(a2.accounts == a.accounts.insert(who, a2.accounts[who]));
    assert forall|w: AccountId| #[trigger] native_of(r.native, w).reserved >= obligation(m, w)
        + asset_obligation(a2, w) - part_of(m, id, w) by {
        lemma_map_sum_kv_insert(a.accounts, held_weight(w), who, a2.accounts[who]);
        assert(native_of(m.native, w).reserved >= obligation(m, w));
    }
    lemma_backed_swap(m, r, id);
}

/// `refund` keeps every deposit covered: the deposit it returns is no longer owed.
pub proof fn lemma_refund_keeps_deposits_backed(m: LedgerModel, who: AccountId, id: AssetId, allow_burn: bool)
    requires
        deposits_backed(m),
        m.refund_result(who, id, allow_burn) is Ok,
    ensures
        deposits_backed(m.refund_result(who, id, allow_burn)->Ok_0),
{
    let a = m.assets[id];
    let r = m.refund_result(who, id, allow_burn)->Ok_0;
    let a2 = r.assets[id];
    assert(a2.accounts == a.accounts.remove(who));
    assert forall|w: AccountId| #[trigger] native_of(r.native, w).reserved >= obligation(m, w)
        + asset_obligation(a2, w) - part_of(m, id, w) by {
        lemma_map_sum_kv_drop(a.accounts, held_weight(w), who);
        assert(native_of(m.native, w).reserved >= obligation(m, w));
    }
    lemma_backed_swap(m, r, id);
}

/// `force_create` keeps every deposit covered: the class holds no deposit.
pub proof fn lemma_force_create_keeps_deposits_backed(
    m: LedgerModel,
    origin: Origin,
    id: AssetId,
    owner: AccountId,
    is_sufficient: bool,
    min_balance: u64,
)
    requires
        deposits_backed(m),
        m.force_create_result(origin, id, owner, is_sufficient, min_balance) is Ok,
    ensures
        deposits_backed(m.force_create_result(origin, id, owner, is_sufficient, min_balance)->Ok_0),
{
    let r = m.force_create_result(origin, id, owner, is_sufficient, min_balance)->Ok_0;
    let a2 = r.assets[id];
    assert(a2.accounts.dom() =~= Set::<AccountId>::empty());
    assert(a2.approvals.dom() =~= Set::<(AccountId, AccountId)>::empty());
    lemma_backed_swap(m, r, id);
}

/// `set_custodian` keeps every deposit covered.
pub proof fn lemma_set_custodian_keeps_deposits_backed(m: LedgerModel, origin: Origin, custodian: AccountId)
    requires
        deposits_backed(m),
        m.set_custodian_result(origin, custodian) is Ok,
    ensures
        deposits_backed(m.set_custodian_result(origin, custodian)->Ok_0),
{
    let r = m.set_custodian_result(origin, custodian)->Ok_0;
    assert forall|who: AccountId| #[trigger] native_of(r.native, who).reserved >= obligation(r, who) by {
        assert(r.assets == m.assets);
    }
}

/// Writing metadata that keeps the deposit keeps every deposit covered.
pub proof fn lemma_metadata_keeps_deposits_backed(m: LedgerModel, id: AssetId, md: MetadataModel)
    requires
        deposits_backed(m),
        m.assets.contains_key(id),
        md.deposit == m.metadata_deposit(id),
    ensures
        deposits_backed(m.with_metadata(id, Some(md))),
{
    lemma_same_asset_swap(m, m.with_metadata(id, Some(md)), id);
    lemma_backed_same(m, m.with_metadata(id, Some(md)));
}

/// `force_clear_metadata` keeps every deposit covered: the deposit it returns
/// is no longer owed.
pub proof fn lemma_clear_metadata_keeps_deposits_backed(m: LedgerModel, origin: Origin, id: AssetId)
    requires
        deposits_backed(m),
        m.force_clear_metadata_result(origin, id) is Ok,
    ensures
        deposits_backed(m.force_clear_metadata_result(origin, id)->Ok_0),
{
    let m1 = m.with_metadata(id, None).with_native(
        unreserve_spec(m.native, m.assets[id].details.owner, m.metadata_deposit(id)),
    );
    assert forall|w: AccountId| #[trigger] native_of(m1.native, w).reserved >= obligation(m, w)
        + asset_obligation(m1.assets[id], w) - part_of(m, id, w) by {
        assert(native_of(m.native, w).reserved >= obligation(m, w));
    }
    lemma_backed_swap(m, m1, id);
    lemma_emit_backed(m1, Event::MetadataCleared { asset_id: id });
}

/// `transfer_ownership` keeps every deposit covered, where the new owner's
/// reserved funds have room for the deposits that move to it.
pub proof fn lemma_transfer_ownership_keeps_deposits_backed(
    m: LedgerModel,
    caller: AccountId,
    id: AssetId,
    new_owner: AccountId,
)
    requires
        deposits_backed(m),
        m.transfer_ownership_result(caller, id, new_owner) is Ok,
        native_of(m.native, new_owner).reserved + m.assets[id].details.deposit + m.metadata_deposit(id)
            <= u64::MAX,
    ensures
        deposits_backed(m.transfer_ownership_result(caller, id, new_owner)->Ok_0),
{
    let d = m.assets[id].details;
    if d.owner != new_owner {
        let total = d.deposit + m.metadata_deposit(id);
        let deposit = if total > u64::MAX {
            u64::MAX
        } else {
            total as u64
        };
        let m1 = m.with_details(id, AssetDetails { owner: new_owner, ..d }).with_native(
            repatriate_spec(m.native, d.owner, new_owner, deposit),
        );
        lemma_part_le_obligation(m, id, d.owner);
        assert(native_of(m.native, d.owner).reserved >= obligation(m, d.owner));
        assert forall|w: AccountId| #[trigger] native_of(m1.native, w).reserved >= obligation(m, w)
            + asset_obligation(m1.assets[id], w) - part_of(m, id, w) by {
            assert(native_of(m.native, w).reserved >= obligation(m, w));
        }
        lemma_backed_swap(m, m1, id);
        lemma_emit_backed(m1, Event::OwnerChanged { asset_id: id, owner: new_owner });
    }
}


/// The empty ledger owes nothing.
pub proof fn lemma_empty_ledger_backed(config: Config)
    ensures
        deposits_backed(empty_ledger(config)),
{
    let m = empty_ledger(config);
    assert(m.assets.dom() =~= Set::<AssetId>::empty());
}

/// Setting an account's free native balance keeps every deposit covered.
pub proof fn lemma_free_balance_keeps_deposits_backed(m: LedgerModel, who: AccountId, free: u64)
    requires
        deposits_backed(m),
    ensures
        deposits_backed(m.with_native(m.native.insert(who, NativeAccount { free, ..native_of(m.native, who) }))),
{
    let r = m.with_native(m.native.insert(who, NativeAccount { free, ..native_of(m.native, who) }));
    assert forall|w: AccountId| #[trigger] native_of(r.native, w).reserved >= obligation(r, w) by {
        assert(r.assets == m.assets);
        assert(native_of(m.native, w).reserved >= obligation(m, w));
    }
}

/// `create` keeps every deposit covered: the class and metadata deposits
/// are reserved from the creator.
pub proof fn lemma_create_keeps_deposits_backed(
    m: LedgerModel,
    caller: AccountId,
    id: AssetId,
    name: Seq<u8>,
    symbol: Seq<u8>,
)
    requires
        deposits_backed(m),
        m.create_error(caller, id, name.len(), symbol.len()) is None,
    ensures
        deposits_backed(m.create_state(caller, id, name, symbol)),
{
    let r = m.create_state(caller, id, name, symbol);
    let a2 = r.assets[id];
    assert(a2.accounts.dom() =~= Set::<AccountId>::empty());
    assert(a2.approvals.dom() =~= Set::<(AccountId, AccountId)>::empty());
    assert forall|w: AccountId| #[trigger] native_of(r.native, w).reserved >= obligation(m, w)
        + asset_obligation(a2, w) - part_of(m, id, w) by {
        assert(native_of(m.native, w).reserved >= obligation(m, w));
    }
    lemma_backed_swap(m, r, id);
}

pub open spec fn allowance_weight(who: AccountId) -> spec_fn(Allowance) -> int {
    |x: Allowance|
        if x.owner == who {
            x.approval.deposit as int
        } else {
            0int
        }
}

pub proof fn lemma_as_map_sum_kv<E: Keyed>(s: Seq<E>, f: spec_fn(E::K, E::V) -> int, g: spec_fn(E) -> int)
    requires
        unique(s),
        forall|e: E| #[trigger] g(e) == f(e.key(), e.val()),
    ensures
        as_map(s).dom().finite(),
        seq_sum(s, g) == map_sum_kv(as_map(s), f),
    decreases s.len(),
{
    if s.len() == 0 {
        assert(as_map(s).dom() =~= Set::<E::K>::empty());
    } else {
        let t = s.drop_last();
        let e = s.last();
        assert(unique(t)) by {
            assert forall|a: int, b: int|
                0 <= a < t.len() && 0 <= b < t.len() && a != b implies #[trigger] t[a].key()
                != #[trigger] t[b].key() by {
                assert(t[a] == s[a] && t[b] == s[b]);
            }
        }
        lemma_as_map_sum_kv(t, f, g);
        assert(!as_map(t).contains_key(e.key())) by {
            if as_map(t).contains_key(e.key()) {
                let j = choose|j: int| 0 <= j < t.len() && #[trigger] t[j].key() == e.key();
                assert(s[j].key() == s[s.len() - 1].key());
            }
        }
        assert(t.push(e) =~= s);
        lemma_push(t, e);
        let m = as_map(s);
        assert(m.remove(e.key()) =~= as_map(t));
        lemma_map_sum_kv_remove(m, f, e.key());
    }
}

proof fn lemma_release_holdings_reserved(n: Map<AccountId, NativeAccount>, hs: Seq<Holding>, w: AccountId)
    ensures
        native_of(release_holdings(n, hs), w).reserved == native_of(n, w).reserved,
    decreases hs.len(),
{
    if hs.len() > 0 {
        lemma_release_holdings_reserved(n, hs.drop_last(), w);
    }
}

proof fn lemma_release_approvals_reserved(n: Map<AccountId, NativeAccount>, al: Seq<Allowance>, w: AccountId)
    ensures
        native_of(release_approvals(n, al), w).reserved >= native_of(n, w).reserved - seq_sum(
            al,
            allowance_weight(w),
        ),
    decreases al.len(),
{
    if al.len() > 0 {
        lemma_release_approvals_reserved(n, al.drop_last(), w);
    }
}

/// `destroy` keeps every deposit covered: what it stops owing is at least
/// what it returns.
pub proof fn lemma_destroy_keeps_deposits_backed(
    m: LedgerModel,
    id: AssetId,
    hs: Seq<Holding>,
    al: Seq<Allowance>,
)
    requires
        deposits_backed(m),
        m.assets.contains_key(id),
        unique(al),
        as_map(al) == m.assets[id].approvals,
    ensures
        deposits_backed(m.destroy_state(id, hs, al)),
{
    let a = m.assets[id];
    let r = m.destroy_state(id, hs, al);
    let total = a.details.deposit + m.metadata_deposit(id);
    let deposit = if total > u64::MAX {
        u64::MAX
    } else {
        total as u64
    };
    let n0 = release_holdings(m.native, hs);
    let n1 = unreserve_spec(n0, a.details.owner, deposit);
    assert forall|i: AssetId| #[trigger] r.assets.contains_key(i) implies r.assets[i].accounts.dom().finite()
        && r.assets[i].approvals.dom().finite() by {
        assert(m.assets.contains_key(i));
    }
    assert forall|w: AccountId| #[trigger] native_of(r.native, w).reserved >= obligation(r, w) by {
        lemma_map_sum_kv_drop(m.assets, obligation_weight(w), id);
        lemma_release_holdings_reserved(m.native, hs, w);
        lemma_release_approvals_reserved(n1, al, w);
        assert forall|x: Allowance| #[trigger] allowance_weight(w)(x) == approval_weight(w)(x.key(), x.val()) by {}
        lemma_as_map_sum_kv(al, approval_weight(w), allowance_weight(w));
        lemma_asset_obligation_nonneg(a, w);
        assert(native_of(m.native, w).reserved >= obligation(m, w));
    }
}


/// A change that touches neither the classes nor the native funds keeps
/// every deposit covered: recording deaths, frozen parts, events.
pub proof fn lemma_unrelated_keeps_deposits_backed(m: LedgerModel, m2: LedgerModel)
    requires
        deposits_backed(m),
        m2.assets == m.assets,
        m2.native == m.native,
    ensures
        deposits_backed(m2),
{
    assert forall|w: AccountId| #[trigger] native_of(m2.native, w).reserved >= obligation(m2, w) by {
        assert(native_of(m.native, w).reserved >= obligation(m, w));
    }
}

/// `burn_from` keeps every deposit covered.
pub proof fn lemma_burn_from_keeps_deposits_backed(m: LedgerModel, id: AssetId, who: AccountId, amount: u64, f: DebitFlags)
    requires
        deposits_backed(m),
        m.decrease_result(id, who, amount, f, None) is Ok,
    ensures
        deposits_backed(m.decrease_result(id, who, amount, f, None)->Ok_0.1),
{
    lemma_decrease_same(m, id, who, amount, f, None);
    lemma_backed_same(m, m.decrease_result(id, who, amount, f, None)->Ok_0.1);
}


proof fn lemma_steps_backed<T>(init: LedgerModel, items: Seq<T>, step: spec_fn(LedgerModel, T) -> Result<LedgerModel, Error>)
    requires
        deposits_backed(init),
        forall|m: LedgerModel, t: T|
            deposits_backed(m) && (#[trigger] step(m, t)) is Ok ==> deposits_backed(step(m, t)->Ok_0),
    ensures
        run_steps(init, items, step) is Ok ==> deposits_backed(run_steps(init, items, step)->Ok_0),
    decreases items.len(),
{
    if items.len() > 0 {
        lemma_steps_backed(init, items.drop_last(), step);
    }
}

/// A ledger built from a genesis configuration has every deposit covered:
/// genesis holds no deposit.
pub proof fn lemma_genesis_backed(config: Config, g: GenesisConfig)
    ensures
        genesis_result(empty_ledger(config), g) is Ok ==> deposits_backed(
            genesis_result(empty_ledger(config), g)->Ok_0,
        ),
{
    let m0 = LedgerModel { custodian: g.custodian, ..empty_ledger(config) };
    assert(m0.assets.dom() =~= Set::<AssetId>::empty());
    assert(deposits_backed(m0));
    assert forall|m: LedgerModel, t: (AssetId, AccountId, bool, u64)|
        deposits_backed(m) && (#[trigger] genesis_asset_step()(m, t)) is Ok implies deposits_backed(
            genesis_asset_step()(m, t)->Ok_0,
        ) by {
        let r = genesis_asset_step()(m, t)->Ok_0;
        assert(r.assets[t.0].accounts.dom() =~= Set::<AccountId>::empty());
        assert(r.assets[t.0].approvals.dom() =~= Set::<(AccountId, AccountId)>::empty());
        assert forall|w: AccountId| #[trigger] native_of(r.native, w).reserved >= obligation(m, w)
            + asset_obligation(r.assets[t.0], w) - part_of(m, t.0, w) by {
            assert(native_of(m.native, w).reserved >= obligation(m, w));
        }
        lemma_backed_swap(m, r, t.0);
    }
    assert forall|m: LedgerModel, t: (AssetId, Vec<u8>, Vec<u8>, u8)|
        deposits_backed(m) && (#[trigger] genesis_metadata_step()(m, t)) is Ok implies deposits_backed(
            genesis_metadata_step()(m, t)->Ok_0,
        ) by {
        let r = genesis_metadata_step()(m, t)->Ok_0;
        assert forall|w: AccountId| #[trigger] native_of(r.native, w).reserved >= obligation(m, w)
            + asset_obligation(r.assets[t.0], w) - part_of(m, t.0, w) by {
            assert(native_of(m.native, w).reserved >= obligation(m, w));
        }
        lemma_backed_swap(m, r, t.0);
    }
    assert forall|m: LedgerModel, t: (AssetId, AccountId, u64)|
        deposits_backed(m) && (#[trigger] genesis_account_step()(m, t)) is Ok implies deposits_backed(
            genesis_account_step()(m, t)->Ok_0,
        ) by {
        if t.2 != 0 {
            lemma_issue_same(m, t.0, t.1, t.2);
            lemma_backed_same(m, m.issue(t.0, t.1, t.2));
        }
    }
    lemma_steps_backed(m0, g.assets@, genesis_asset_step());
    if run_steps(m0, g.assets@, genesis_asset_step()) is Ok {
        let m1 = run_steps(m0, g.assets@, genesis_asset_step())->Ok_0;
        lemma_steps_backed(m1, g.metadata@, genesis_metadata_step());
        if run_steps(m1, g.metadata@, genesis_metadata_step()) is Ok {
            let m2 = run_steps(m1, g.metadata@, genesis_metadata_step())->Ok_0;
            lemma_steps_backed(m2, g.accounts@, genesis_account_step());
        }
    }
}


proof fn lemma_release_approvals_exact(n: Map<AccountId, NativeAccount>, al: Seq<Allowance>, w: AccountId)
    requires
        native_of(n, w).reserved >= seq_sum(al, allowance_weight(w)),
    ensures
        native_of(release_approvals(n, al), w).reserved == native_of(n, w).reserved - seq_sum(
            al,
            allowance_weight(w),
        ),
    decreases al.len(),
{
    if al.len() > 0 {
        let t = al.drop_last();
        assert forall|x: Allowance| #[trigger] allowance_weight(w)(x) >= 0 by {}
        crate::store::lemma_sum_nonneg(t, allowance_weight(w));
        lemma_release_approvals_exact(n, t, w);
    }
}

/// In a ledger whose deposits are covered, `destroy` returns to each
/// account exactly what it had deposited for the class as its owner and as
/// an approver; deposits held for accounts stay reserved.
pub proof fn lemma_destroy_returns_deposits(
    m: LedgerModel,
    id: AssetId,
    hs: Seq<Holding>,
    al: Seq<Allowance>,
    w: AccountId,
)
    requires
        deposits_backed(m),
        m.assets.contains_key(id),
        unique(al),
        as_map(al) == m.assets[id].approvals,
    ensures
        native_of(m.destroy_state(id, hs, al).native, w).reserved == native_of(m.native, w).reserved
            - (if m.assets[id].details.owner == w {
            m.assets[id].details.deposit + metadata_deposit_of(m.assets[id])
        } else {
            0
        }) - map_sum_kv(m.assets[id].approvals, approval_weight(w)),
{
    let a = m.assets[id];
    let total = a.details.deposit + m.metadata_deposit(id);
    let deposit = if total > u64::MAX {
        u64::MAX
    } else {
        total as u64
    };
    let n0 = release_holdings(m.native, hs);
    let n1 = unreserve_spec(n0, a.details.owner, deposit);
    lemma_release_holdings_reserved(m.native, hs, w);
    lemma_part_le_obligation(m, id, w);
    lemma_asset_obligation_nonneg(a, w);
    lemma_part_le_obligation(m, id, a.details.owner);
    assert(native_of(m.native, w).reserved >= obligation(m, w));
    assert(native_of(m.native, a.details.owner).reserved >= obligation(m, a.details.owner));
    assert forall|x: Allowance| #[trigger] allowance_weight(w)(x) == approval_weight(w)(x.key(), x.val()) by {}
    lemma_as_map_sum_kv(al, approval_weight(w), allowance_weight(w));
    lemma_release_approvals_exact(n1, al, w);
}

} // verus!
