//! Laws that relate several commands of the asset ledger, stated over the
//! results that the commands' contracts give.

use crate::native::native_of;
use crate::model::{LedgerModel, TransferFlags};
use crate::types::{AccountId, AssetId, Balance, Error};
use vstd::prelude::*;

verus! {

/// Approving a delegate that had no approval and then cancelling that
/// approval gives the owner's reserved balance back exactly, and leaves the
/// class's approvals and their count as they were.
pub proof fn lemma_approve_then_cancel(
    m: LedgerModel,
    id: AssetId,
    owner: AccountId,
    delegate: AccountId,
    amount: Balance,
)
    requires
        m.approve_result(id, owner, delegate, amount) is Ok,
        !m.assets[id].approvals.contains_key((owner, delegate)),
    ensures
        ({
            let m1 = m.approve_result(id, owner, delegate, amount)->Ok_0;
            let r = m1.cancel_result(id, owner, delegate);
            &&& r is Ok
            &&& native_of(r->Ok_0.native, owner).reserved == native_of(m.native, owner).reserved
            &&& r->Ok_0.assets[id].details.approvals == m.assets[id].details.approvals
            &&& r->Ok_0.assets[id].approvals == m.assets[id].approvals
        }),
{
    let m1 = m.approve_result(id, owner, delegate, amount)->Ok_0;
    let m2 = m1.cancel_result(id, owner, delegate)->Ok_0;
    assert(m2.assets[id].approvals =~= m.assets[id].approvals);
}

/// Opening an account with `touch` and closing it with `refund`, burning
/// allowed, gives the holder's reserved balance back exactly and leaves the
/// class's accounts as they were.
pub proof fn lemma_touch_then_refund(m: LedgerModel, who: AccountId, id: AssetId)
    requires
        m.touch_result(who, id) is Ok,
    ensures
        ({
            let m1 = m.touch_result(who, id)->Ok_0;
            let r = m1.refund_result(who, id, true);
            &&& r is Ok
            &&& native_of(r->Ok_0.native, who).reserved == native_of(m.native, who).reserved
            &&& r->Ok_0.assets[id].accounts == m.assets[id].accounts
            &&& r->Ok_0.assets[id].details == m.assets[id].details
        }),
{
    let m1 = m.touch_result(who, id)->Ok_0;
    let m2 = m1.refund_result(who, id, true)->Ok_0;
    assert(m2.assets[id].accounts =~= m.assets[id].accounts);
}

/// Freezing an account that was not frozen and thawing it again leaves the
/// ledger as it was, but for the two events: the account may transfer as
/// before.
pub proof fn lemma_freeze_then_thaw(
    m: LedgerModel,
    freezer: AccountId,
    admin: AccountId,
    id: AssetId,
    who: AccountId,
)
    requires
        m.freeze_result(freezer, id, who, true) is Ok,
        m.freeze_result(freezer, id, who, true)->Ok_0.freeze_result(admin, id, who, false) is Ok,
        !m.assets[id].accounts[who].is_frozen,
    ensures
        ({
            let m2 = m.freeze_result(freezer, id, who, true)->Ok_0.freeze_result(admin, id, who, false)->Ok_0;
            &&& m2 == LedgerModel { events: m2.events, ..m }
            &&& forall|keep_alive: bool| #[trigger] m2.reducible(id, who, keep_alive) == m.reducible(id, who, keep_alive)
        }),
{
    let m1 = m.freeze_result(freezer, id, who, true)->Ok_0;
    let m2 = m1.freeze_result(admin, id, who, false)->Ok_0;
    assert(m2.assets[id].accounts =~= m.assets[id].accounts);
    assert(m2.assets =~= m.assets);
}

/// A transfer that would leave its source exactly one below the minimum
/// balance reaps the source when the source need not be kept alive, and is
/// refused with `BalanceLow` when it must. The source holds no deposit for
/// its account and nothing of it is frozen; the destination can take the
/// whole balance.
pub proof fn lemma_transfer_to_below_minimum(
    m: LedgerModel,
    id: AssetId,
    source: AccountId,
    dest: AccountId,
    amount: Balance,
)
    requires
        m.assets.contains_key(id),
        m.assets[id].accounts.contains_key(source),
        !m.assets[id].details.is_frozen,
        !m.assets[id].accounts[source].is_frozen,
        !(m.assets[id].accounts[source].reason is DepositHeld),
        m.frozen_of(id, source) is None,
        m.assets[id].accounts[source].balance <= m.assets[id].details.supply,
        m.assets[id].details.min_balance >= 1,
        amount > 0,
        m.assets[id].accounts[source].balance - amount == m.assets[id].details.min_balance - 1,
        source != dest,
        m.can_increase(id, dest, m.assets[id].accounts[source].balance, false) is Ok,
    ensures
        m.transfer_result(id, source, dest, amount, None, TransferFlags { keep_alive: true, best_effort: false, burn_dust: false })
            == Err::<(Balance, LedgerModel), Error>(Error::BalanceLow),
        ({
            let r = m.transfer_result(
                id,
                source,
                dest,
                amount,
                None,
                TransferFlags { keep_alive: false, best_effort: false, burn_dust: false },
            );
            &&& r is Ok
            &&& r->Ok_0.0 == m.assets[id].accounts[source].balance
            &&& !r->Ok_0.1.assets[id].accounts.contains_key(source)
        }),
{
}

/// Minting, by the issuer, less than the minimum balance to an owner without
/// an account fails with `BelowMinimum`, where the class is not frozen and
/// the supply has room for the amount.
pub proof fn lemma_mint_below_minimum(m: LedgerModel, caller: AccountId, id: AssetId, amount: Balance)
    requires
        m.assets.contains_key(id),
        caller == m.assets[id].details.issuer,
        0 < amount < m.assets[id].details.min_balance,
        !m.assets[id].accounts.contains_key(m.assets[id].details.owner),
        !m.assets[id].details.is_frozen,
        m.assets[id].details.supply + amount <= u64::MAX,
    ensures
        m.mint_result(caller, id, amount) == Err::<LedgerModel, Error>(Error::BelowMinimum),
{
}

/// Whether an approval is accepted does not depend on its amount: an
/// approval of more than the supply is accepted as any other.
pub proof fn lemma_approve_any_amount(
    m: LedgerModel,
    id: AssetId,
    owner: AccountId,
    delegate: AccountId,
    a: Balance,
    b: Balance,
)
    ensures
        (m.approve_result(id, owner, delegate, a) is Ok) == (m.approve_result(id, owner, delegate, b) is Ok),
{
}

/// A delegated transfer of more than the owner holds, within what was
/// approved, fails with `BalanceLow`, where nothing of the owner's is frozen.
pub proof fn lemma_transfer_approved_beyond_balance(
    m: LedgerModel,
    id: AssetId,
    owner: AccountId,
    delegate: AccountId,
    dest: AccountId,
    amount: Balance,
)
    requires
        m.assets.contains_key(id),
        !m.assets[id].details.is_frozen,
        m.assets[id].approvals.contains_key((owner, delegate)),
        m.assets[id].approvals[(owner, delegate)].amount >= amount,
        m.assets[id].accounts.contains_key(owner),
        !m.assets[id].accounts[owner].is_frozen,
        m.frozen_of(id, owner) is None,
        amount > m.assets[id].accounts[owner].balance,
    ensures
        m.transfer_approved_result(id, owner, delegate, dest, amount) == Err::<LedgerModel, Error>(
            Error::BalanceLow,
        ),
{
}

} // verus!
