//! The asset ledger as a mathematical value, and what each command does to it.

use crate::native::{
    can_inc_consumer, dec_consumers_spec, dec_sufficients_spec, inc_consumers_spec,
    inc_sufficients_spec, repatriate_spec, reserve_spec, unreserve_spec, NativeAccount,
};
use crate::pallet::GenesisConfig;
use crate::records::{Allowance, AssetModel, Holding};
use crate::types::{
    AccountId, Approval, AssetAccount, AssetDetails, AssetId, Balance, Config, DestroyWitness, Error,
    Event, ExistenceReason, MetadataModel, Origin,
};
use vstd::prelude::*;

verus! {

/// The whole ledger as a mathematical value.
pub struct LedgerModel {
    pub config: Config,
    pub assets: Map<AssetId, AssetModel>,
    pub certificates: Map<(AccountId, AssetId), Balance>,
    pub custodian: Option<AccountId>,
    pub nonce: u64,
    pub created: Map<AccountId, AssetId>,
    pub native: Map<AccountId, NativeAccount>,
    pub frozen: Map<(AssetId, AccountId), Balance>,
    pub events: Seq<Event>,
    pub died: Seq<(AssetId, AccountId)>,
}

/// How a debit may treat its source.
#[derive(Clone, Copy, Debug, PartialEq, Eq, Structural)]
pub struct DebitFlags {
    /// Refuse a debit that would reap the source.
    pub keep_alive: bool,
    /// Debit what is available when it is less than asked.
    pub best_effort: bool,
}

/// How a transfer may treat its source.
#[derive(Clone, Copy, Debug, PartialEq, Eq, Structural)]
pub struct TransferFlags {
    pub keep_alive: bool,
    pub best_effort: bool,
    /// Burn the dust of a reaped source instead of passing it on.
    pub burn_dust: bool,
}

impl LedgerModel {
    pub open spec fn with_asset(self, id: AssetId, a: AssetModel) -> Self {
        LedgerModel { assets: self.assets.insert(id, a), ..self }
    }

    pub open spec fn emit(self, e: Event) -> Self {
        LedgerModel { events: self.events.push(e), ..self }
    }

    /// The frozen part of the balance of `who` in `id`, where one is set.
    pub open spec fn frozen_of(self, id: AssetId, who: AccountId) -> Option<Balance> {
        if self.frozen.contains_key((id, who)) {
            Some(self.frozen[(id, who)])
        } else {
            None
        }
    }

    /// The balance of `who` in `id`; zero without an account.
    pub open spec fn balance_of(self, id: AssetId, who: AccountId) -> Balance {
        if self.assets.contains_key(id) && self.assets[id].accounts.contains_key(who) {
            self.assets[id].accounts[who].balance
        } else {
            0
        }
    }

    /// How much of the balance of `who` in `id` may leave it: all of it, or
    /// what lies above the minimum balance when the account must stay alive,
    /// or what lies above the frozen part plus the minimum balance.
    pub open spec fn reducible(self, id: AssetId, who: AccountId, keep_alive: bool) -> Result<
        Balance,
        Error,
    > {
        if !self.assets.contains_key(id) {
            Err(Error::Unknown)
        } else {
            let a = self.assets[id];
            let min = a.details.min_balance;
            if a.details.is_frozen {
                Err(Error::Frozen)
            } else if !a.accounts.contains_key(who) {
                Err(Error::NoAccount)
            } else if a.accounts[who].is_frozen {
                Err(Error::Frozen)
            } else {
                let bal = a.accounts[who].balance;
                let amount = match self.frozen_of(id, who) {
                    Some(f) => if f + min > u64::MAX {
                        -1int
                    } else if bal >= f + min {
                        bal - f - min
                    } else {
                        0int
                    },
                    None => if keep_alive {
                        if bal >= min {
                            bal - min
                        } else {
                            0int
                        }
                    } else {
                        bal as int
                    },
                };
                if amount < 0 {
                    Err(Error::Overflow)
                } else if amount <= a.details.supply {
                    Ok(amount as u64)
                } else {
                    Ok(a.details.supply)
                }
            }
        }
    }

    /// What a debit of `amount` from `who` takes: the amount, or what is
    /// available of it when best effort is allowed, plus the rest of the
    /// balance where that rest would fall below the minimum balance.
    pub open spec fn debit(self, id: AssetId, who: AccountId, amount: Balance, f: DebitFlags) -> Result<
        Balance,
        Error,
    > {
        match self.reducible(id, who, f.keep_alive) {
            Err(e) => Err(e),
            Ok(r) => {
                let actual = if r < amount {
                    r
                } else {
                    amount
                };
                let bal = self.assets[id].accounts[who].balance;
                if !f.best_effort && actual < amount {
                    Err(Error::BalanceLow)
                } else if actual > 0 && bal - actual < self.assets[id].details.min_balance {
                    Ok(bal)
                } else {
                    Ok(actual)
                }
            },
        }
    }

    /// Whether `amount` may be credited to `who` in `id`.
    pub open spec fn can_increase(self, id: AssetId, who: AccountId, amount: Balance, minted: bool) -> Result<
        (),
        Error,
    > {
        if !self.assets.contains_key(id) {
            Err(Error::UnknownAsset)
        } else {
            let a = self.assets[id];
            if minted && a.details.supply + amount > u64::MAX {
                Err(Error::Overflow)
            } else if a.accounts.contains_key(who) {
                if a.accounts[who].balance + amount > u64::MAX {
                    Err(Error::Overflow)
                } else {
                    Ok(())
                }
            } else if a.details.is_frozen {
                Err(Error::Blocked)
            } else if amount < a.details.min_balance {
                Err(Error::BelowMinimum)
            } else if !a.details.is_sufficient && !can_inc_consumer(
                self.native,
                who,
                self.config.max_consumers,
            ) {
                Err(Error::CannotCreate)
            } else if a.details.is_sufficient && a.details.sufficients + 1 > u32::MAX {
                Err(Error::Overflow)
            } else if a.details.accounts + 1 > u32::MAX {
                Err(Error::Overflow)
            } else {
                Ok(())
            }
        }
    }

    /// Adds `amount` to the account of `who` in `id`, opening the account
    /// when there is none: a sufficient class counts a sufficient holder, any
    /// other takes a consumer reference on the native ledger.
    pub open spec fn credit(self, id: AssetId, who: AccountId, amount: Balance) -> Self {
        let a = self.assets[id];
        if a.accounts.contains_key(who) {
            let acc = a.accounts[who];
            self.with_asset(
                id,
                AssetModel {
                    accounts: a.accounts.insert(
                        who,
                        AssetAccount { balance: (acc.balance + amount) as u64, ..acc },
                    ),
                    ..a
                },
            )
        } else if a.details.is_sufficient {
            LedgerModel {
                assets: self.assets.insert(
                    id,
                    AssetModel {
                        details: AssetDetails {
                            accounts: (a.details.accounts + 1) as u32,
                            sufficients: (a.details.sufficients + 1) as u32,
                            ..a.details
                        },
                        accounts: a.accounts.insert(
                            who,
                            AssetAccount {
                                balance: amount,
                                is_frozen: false,
                                reason: ExistenceReason::Sufficient,
                            },
                        ),
                        ..a
                    },
                ),
                native: inc_sufficients_spec(self.native, who),
                ..self
            }
        } else {
            LedgerModel {
                assets: self.assets.insert(
                    id,
                    AssetModel {
                        details: AssetDetails { accounts: (a.details.accounts + 1) as u32, ..a.details },
                        accounts: a.accounts.insert(
                            who,
                            AssetAccount {
                                balance: amount,
                                is_frozen: false,
                                reason: ExistenceReason::Consumer,
                            },
                        ),
                        ..a
                    },
                ),
                native: inc_consumers_spec(self.native, who),
                ..self
            }
        }
    }

    /// Takes `amount` from the account of `who` in `id`; an account left
    /// below the minimum balance is reaped unless its holder paid a deposit
    /// for it, and its death is recorded.
    pub open spec fn take(self, id: AssetId, who: AccountId, amount: Balance) -> Self {
        let a = self.assets[id];
        let acc = a.accounts[who];
        let bal = (acc.balance - amount) as u64;
        let kept = self.with_asset(
            id,
            AssetModel { accounts: a.accounts.insert(who, AssetAccount { balance: bal, ..acc }), ..a },
        );
        if bal >= a.details.min_balance {
            kept
        } else {
            match acc.reason {
                ExistenceReason::DepositHeld(_) => kept,
                ExistenceReason::Consumer => LedgerModel {
                    assets: self.assets.insert(
                        id,
                        AssetModel {
                            details: AssetDetails {
                                accounts: (a.details.accounts - 1) as u32,
                                ..a.details
                            },
                            accounts: a.accounts.remove(who),
                            ..a
                        },
                    ),
                    native: dec_consumers_spec(self.native, who),
                    died: self.died.push((id, who)),
                    ..self
                },
                ExistenceReason::Sufficient => LedgerModel {
                    assets: self.assets.insert(
                        id,
                        AssetModel {
                            details: AssetDetails {
                                accounts: (a.details.accounts - 1) as u32,
                                sufficients: (a.details.sufficients - 1) as u32,
                                ..a.details
                            },
                            accounts: a.accounts.remove(who),
                            ..a
                        },
                    ),
                    native: dec_sufficients_spec(self.native, who),
                    died: self.died.push((id, who)),
                    ..self
                },
            }
        }
    }

    pub open spec fn with_supply(self, id: AssetId, supply: Balance) -> Self {
        let a = self.assets[id];
        self.with_asset(id, AssetModel { details: AssetDetails { supply, ..a.details }, ..a })
    }

    /// Raises the supply of `id` by `amount` and credits it to `who`.
    pub open spec fn issue(self, id: AssetId, who: AccountId, amount: Balance) -> Self {
        self.with_supply(id, (self.assets[id].details.supply + amount) as u64).credit(id, who, amount)
    }

    /// `do_transfer`: moves `amount` from `source` to `dest`; returns what `dest` received.
    pub open spec fn transfer_result(
        self,
        id: AssetId,
        source: AccountId,
        dest: AccountId,
        amount: Balance,
        need_admin: Option<AccountId>,
        f: TransferFlags,
    ) -> Result<(Balance, Self), Error> {
        if amount == 0 {
            if need_admin is Some && !self.assets.contains_key(id) {
                Err(Error::Unknown)
            } else if need_admin is Some && need_admin->Some_0 != self.assets[id].details.admin {
                Err(Error::NoPermission)
            } else {
                Ok((0, self))
            }
        } else {
            match self.debit(id, source, amount, DebitFlags { keep_alive: f.keep_alive, best_effort: f.best_effort }) {
                Err(e) => Err(e),
                Ok(debit) => if debit == 0 {
                    Ok((0, self))
                } else {
                    let credit = if f.burn_dust && debit >= amount {
                        amount
                    } else {
                        debit
                    };
                    match self.can_increase(id, dest, credit, false) {
                        Err(e) => Err(e),
                        Ok(_) => {
                            let d = self.assets[id].details;
                            let ev = Event::Transferred { asset_id: id, from: source, to: dest, amount: credit };
                            if need_admin is Some && need_admin->Some_0 != d.admin {
                                Err(Error::NoPermission)
                            } else if source == dest {
                                Ok((credit, self.emit(ev)))
                            } else {
                                Ok(
                                    (
                                        credit,
                                        self.with_supply(id, (d.supply - (debit - credit)) as u64).credit(
                                            id,
                                            dest,
                                            credit,
                                        ).take(id, source, debit).emit(ev),
                                    ),
                                )
                            }
                        },
                    }
                },
            }
        }
    }

    /// `decrease_balance`: takes `amount` from `who` and out of the supply;
    /// returns what was taken.
    pub open spec fn decrease_result(
        self,
        id: AssetId,
        who: AccountId,
        amount: Balance,
        f: DebitFlags,
        need_admin: Option<AccountId>,
    ) -> Result<(Balance, Self), Error> {
        if !self.assets.contains_key(id) {
            Err(Error::Unknown)
        } else if need_admin is Some && need_admin->Some_0 != self.assets[id].details.admin {
            Err(Error::NoPermission)
        } else {
            match self.debit(id, who, amount, f) {
                Err(e) => Err(e),
                Ok(actual) => if actual == 0 {
                    Ok((0, self))
                } else {
                    Ok(
                        (
                            actual,
                            self.with_supply(id, (self.assets[id].details.supply - actual) as u64).take(
                                id,
                                who,
                                actual,
                            ),
                        ),
                    )
                },
            }
        }
    }

    /// The certificate of `who` in `id`; zero when none was written.
    pub open spec fn certificate_of(self, who: AccountId, id: AssetId) -> Balance {
        if self.certificates.contains_key((who, id)) {
            self.certificates[(who, id)]
        } else {
            0
        }
    }

    /// Adds `amount` to the certificate of `who` in `id`, saturating.
    pub open spec fn certify(self, who: AccountId, id: AssetId, amount: Balance) -> Self {
        let total = self.certificate_of(who, id) + amount;
        LedgerModel {
            certificates: self.certificates.insert(
                (who, id),
                if total > u64::MAX {
                    u64::MAX
                } else {
                    total as u64
                },
            ),
            ..self
        }
    }

    /// A burn of `amount` from `who`, by the admin of `id` when `need_admin`
    /// names the caller: the debit, its `Burned` event, the certificate and
    /// the `CarbonCreditsBurned` event that records the amount asked for.
    pub open spec fn burn_result(
        self,
        id: AssetId,
        who: AccountId,
        amount: Balance,
        need_admin: Option<AccountId>,
    ) -> Result<Self, Error> {
        match self.decrease_result(id, who, amount, DebitFlags { keep_alive: false, best_effort: false }, need_admin) {
            Err(e) => Err(e),
            Ok((actual, m)) => Ok(
                m.emit(Event::Burned { asset_id: id, owner: who, balance: actual }).certify(
                    who,
                    id,
                    amount,
                ).emit(Event::CarbonCreditsBurned { account: who, asset_id: id, amount }),
            ),
        }
    }

    pub open spec fn with_native(self, native: Map<AccountId, NativeAccount>) -> Self {
        LedgerModel { native, ..self }
    }

    /// The asset class `id` with `details` in place of its own.
    pub open spec fn with_details(self, id: AssetId, details: AssetDetails) -> Self {
        self.with_asset(id, AssetModel { details, ..self.assets[id] })
    }

    /// `approve_transfer`: `owner` lets `delegate` move `amount` more of `id`;
    /// a new approval reserves the approval deposit from `owner`.
    pub open spec fn approve_result(self, id: AssetId, owner: AccountId, delegate: AccountId, amount: Balance) -> Result<
        Self,
        Error,
    > {
        if !self.assets.contains_key(id) {
            Err(Error::Unknown)
        } else {
            let a = self.assets[id];
            let exists = a.approvals.contains_key((owner, delegate));
            let prior = if exists {
                a.approvals[(owner, delegate)]
            } else {
                Approval { amount: 0, deposit: 0 }
            };
            let required = self.config.approval_deposit;
            let reserved = if prior.deposit < required {
                reserve_spec(self.native, owner, (required - prior.deposit) as u64)
            } else {
                Ok(self.native)
            };
            if a.details.is_frozen {
                Err(Error::Frozen)
            } else if !exists && a.details.approvals == u32::MAX {
                Err(Error::Overflow)
            } else {
                match reserved {
                    Err(e) => Err(e),
                    Ok(n) => {
                        let approval = Approval {
                            amount: if prior.amount + amount > u64::MAX {
                                u64::MAX
                            } else {
                                (prior.amount + amount) as u64
                            },
                            deposit: if prior.deposit < required {
                                required
                            } else {
                                prior.deposit
                            },
                        };
                        let details = if exists {
                            a.details
                        } else {
                            AssetDetails { approvals: (a.details.approvals + 1) as u32, ..a.details }
                        };
                        Ok(
                            self.with_asset(
                                id,
                                AssetModel {
                                    details,
                                    approvals: a.approvals.insert((owner, delegate), approval),
                                    ..a
                                },
                            ).with_native(n).emit(
                                Event::ApprovedTransfer { asset_id: id, source: owner, delegate, amount },
                            ),
                        )
                    },
                }
            }
        }
    }

    /// Removes the approval of `delegate` by `owner` and returns its deposit.
    pub open spec fn drop_approval(self, id: AssetId, owner: AccountId, delegate: AccountId) -> Self {
        let a = self.assets[id];
        self.with_asset(
            id,
            AssetModel {
                details: AssetDetails { approvals: (a.details.approvals - 1) as u32, ..a.details },
                approvals: a.approvals.remove((owner, delegate)),
                ..a
            },
        ).with_native(unreserve_spec(self.native, owner, a.approvals[(owner, delegate)].deposit))
    }

    /// `transfer_approved`: `delegate` moves `amount` of what `owner`
    /// approved to `dest`; a drained approval is removed.
    pub open spec fn transfer_approved_result(
        self,
        id: AssetId,
        owner: AccountId,
        delegate: AccountId,
        dest: AccountId,
        amount: Balance,
    ) -> Result<Self, Error> {
        if !self.assets.contains_key(id) {
            Err(Error::Unknown)
        } else if self.assets[id].details.is_frozen {
            Err(Error::Frozen)
        } else if !self.assets[id].approvals.contains_key((owner, delegate)) {
            Err(Error::Unapproved)
        } else {
            let approval = self.assets[id].approvals[(owner, delegate)];
            if approval.amount < amount {
                Err(Error::Unapproved)
            } else {
                match self.transfer_result(
                    id,
                    owner,
                    dest,
                    amount,
                    None,
                    TransferFlags { keep_alive: false, best_effort: false, burn_dust: false },
                ) {
                    Err(e) => Err(e),
                    Ok((_, m)) => {
                        let remaining = (approval.amount - amount) as u64;
                        let m2 = if remaining == 0 {
                            m.drop_approval(id, owner, delegate)
                        } else {
                            let a = m.assets[id];
                            m.with_asset(
                                id,
                                AssetModel {
                                    approvals: a.approvals.insert(
                                        (owner, delegate),
                                        Approval { amount: remaining, ..approval },
                                    ),
                                    ..a
                                },
                            )
                        };
                        Ok(
                            m2.emit(
                                Event::TransferredApproved {
                                    asset_id: id,
                                    owner,
                                    delegate,
                                    destination: dest,
                                    amount,
                                },
                            ),
                        )
                    },
                }
            }
        }
    }

    /// `cancel_approval` and `force_cancel_approval` once the caller is allowed.
    pub open spec fn cancel_result(self, id: AssetId, owner: AccountId, delegate: AccountId) -> Result<
        Self,
        Error,
    > {
        if !self.assets.contains_key(id) || !self.assets[id].approvals.contains_key((owner, delegate)) {
            Err(Error::Unknown)
        } else {
            Ok(
                self.drop_approval(id, owner, delegate).emit(
                    Event::ApprovalCancelled { asset_id: id, owner, delegate },
                ),
            )
        }
    }

    /// `touch`: `who` reserves the account deposit and opens an empty account in `id`.
    pub open spec fn touch_result(self, who: AccountId, id: AssetId) -> Result<Self, Error> {
        if !self.assets.contains_key(id) {
            Err(Error::Unknown)
        } else {
            let a = self.assets[id];
            let deposit = self.config.asset_account_deposit;
            if a.accounts.contains_key(who) {
                Err(Error::AlreadyExists)
            } else if a.details.accounts == u32::MAX {
                Err(Error::Overflow)
            } else {
                match reserve_spec(self.native, who, deposit) {
                    Err(e) => Err(e),
                    Ok(n) => Ok(
                        self.with_asset(
                            id,
                            AssetModel {
                                details: AssetDetails {
                                    accounts: (a.details.accounts + 1) as u32,
                                    ..a.details
                                },
                                accounts: a.accounts.insert(
                                    who,
                                    AssetAccount {
                                        balance: 0,
                                        is_frozen: false,
                                        reason: ExistenceReason::DepositHeld(deposit),
                                    },
                                ),
                                ..a
                            },
                        ).with_native(n),
                    ),
                }
            }
        }
    }

    /// `refund`: `who` closes its deposit-held account in `id` and gets the
    /// deposit back; a balance left in it is burned, if `allow_burn`.
    pub open spec fn refund_result(self, who: AccountId, id: AssetId, allow_burn: bool) -> Result<
        Self,
        Error,
    > {
        if !self.assets.contains_key(id) || !self.assets[id].accounts.contains_key(who) {
            Err(Error::NoDeposit)
        } else {
            let a = self.assets[id];
            let acc = a.accounts[who];
            match acc.reason {
                ExistenceReason::DepositHeld(deposit) => if acc.balance != 0 && !allow_burn {
                    Err(Error::WouldBurn)
                } else {
                    Ok(
                        LedgerModel {
                            died: self.died.push((id, who)),
                            ..self.with_asset(
                                id,
                                AssetModel {
                                    details: AssetDetails {
                                        accounts: (a.details.accounts - 1) as u32,
                                        supply: (a.details.supply - acc.balance) as u64,
                                        ..a.details
                                    },
                                    accounts: a.accounts.remove(who),
                                    ..a
                                },
                            ).with_native(unreserve_spec(self.native, who, deposit))
                        },
                    )
                },
                _ => Err(Error::NoDeposit),
            }
        }
    }

    /// Sets the frozen flag of the account of `who` in `id`, by the freezer
    /// (to freeze) or the admin (to thaw).
    pub open spec fn freeze_result(self, caller: AccountId, id: AssetId, who: AccountId, frozen: bool) -> Result<
        Self,
        Error,
    > {
        if !self.assets.contains_key(id) {
            Err(Error::Unknown)
        } else {
            let a = self.assets[id];
            let allowed = if frozen {
                a.details.freezer
            } else {
                a.details.admin
            };
            if caller != allowed {
                Err(Error::NoPermission)
            } else if !a.accounts.contains_key(who) {
                Err(Error::NoAccount)
            } else {
                Ok(
                    self.with_asset(
                        id,
                        AssetModel {
                            accounts: a.accounts.insert(
                                who,
                                AssetAccount { is_frozen: frozen, ..a.accounts[who] },
                            ),
                            ..a
                        },
                    ).emit(
                        if frozen {
                            Event::Frozen { asset_id: id, who }
                        } else {
                            Event::Thawed { asset_id: id, who }
                        },
                    ),
                )
            }
        }
    }

    /// Sets the frozen flag of the class `id`, by the freezer (to freeze) or
    /// the admin (to thaw).
    pub open spec fn freeze_asset_result(self, caller: AccountId, id: AssetId, frozen: bool) -> Result<
        Self,
        Error,
    > {
        if !self.assets.contains_key(id) {
            Err(Error::Unknown)
        } else {
            let d = self.assets[id].details;
            let allowed = if frozen {
                d.freezer
            } else {
                d.admin
            };
            if caller != allowed {
                Err(Error::NoPermission)
            } else {
                Ok(
                    self.with_details(id, AssetDetails { is_frozen: frozen, ..d }).emit(
                        if frozen {
                            Event::AssetFrozen { asset_id: id }
                        } else {
                            Event::AssetThawed { asset_id: id }
                        },
                    ),
                )
            }
        }
    }

    /// The metadata deposit of `id`; zero without metadata.
    pub open spec fn metadata_deposit(self, id: AssetId) -> Balance {
        match self.assets[id].metadata {
            Some(m) => m.deposit,
            None => 0,
        }
    }

    /// `transfer_ownership`: the owner hands `id` to `new_owner`, with the
    /// class and metadata deposits.
    pub open spec fn transfer_ownership_result(self, caller: AccountId, id: AssetId, new_owner: AccountId) -> Result<
        Self,
        Error,
    > {
        if !self.assets.contains_key(id) {
            Err(Error::Unknown)
        } else {
            let d = self.assets[id].details;
            if caller != d.owner {
                Err(Error::NoPermission)
            } else if d.owner == new_owner {
                Ok(self)
            } else {
                let total = d.deposit + self.metadata_deposit(id);
                let deposit = if total > u64::MAX {
                    u64::MAX
                } else {
                    total as u64
                };
                Ok(
                    self.with_details(id, AssetDetails { owner: new_owner, ..d }).with_native(
                        repatriate_spec(self.native, d.owner, new_owner, deposit),
                    ).emit(Event::OwnerChanged { asset_id: id, owner: new_owner }),
                )
            }
        }
    }

    /// `set_custodian`, by the privileged origin.
    pub open spec fn set_custodian_result(self, origin: Origin, custodian: AccountId) -> Result<Self, Error> {
        if origin != Origin::Root {
            Err(Error::BadOrigin)
        } else {
            Ok(LedgerModel { custodian: Some(custodian), ..self }.emit(Event::CustodianSet { custodian }))
        }
    }

    /// `force_create`, by the privileged origin: a class owned, issued,
    /// administered and frozen by `owner`, with no deposit.
    pub open spec fn force_create_result(
        self,
        origin: Origin,
        id: AssetId,
        owner: AccountId,
        is_sufficient: bool,
        min_balance: Balance,
    ) -> Result<Self, Error> {
        if origin != Origin::Root {
            Err(Error::BadOrigin)
        } else if self.assets.contains_key(id) {
            Err(Error::InUse)
        } else if min_balance == 0 {
            Err(Error::MinBalanceZero)
        } else {
            Ok(
                self.with_asset(
                    id,
                    AssetModel {
                        details: AssetDetails {
                            owner,
                            issuer: owner,
                            admin: owner,
                            freezer: owner,
                            supply: 0,
                            deposit: 0,
                            min_balance,
                            is_sufficient,
                            accounts: 0,
                            sufficients: 0,
                            approvals: 0,
                            is_frozen: false,
                        },
                        metadata: None,
                        accounts: Map::empty(),
                        approvals: Map::empty(),
                    },
                ).emit(Event::ForceCreated { asset_id: id, owner }),
            )
        }
    }

    /// `force_asset_status`, by the privileged origin: new roles and knobs;
    /// holdings below a raised minimum balance stay.
    pub open spec fn force_asset_status_result(
        self,
        origin: Origin,
        id: AssetId,
        owner: AccountId,
        issuer: AccountId,
        admin: AccountId,
        freezer: AccountId,
        min_balance: Balance,
        is_sufficient: bool,
        is_frozen: bool,
    ) -> Result<Self, Error> {
        if origin != Origin::Root {
            Err(Error::BadOrigin)
        } else if !self.assets.contains_key(id) {
            Err(Error::Unknown)
        } else if min_balance == 0 {
            Err(Error::MinBalanceZero)
        } else {
            Ok(
                self.with_details(
                    id,
                    AssetDetails {
                        owner,
                        issuer,
                        admin,
                        freezer,
                        min_balance,
                        is_sufficient,
                        is_frozen,
                        ..self.assets[id].details
                    },
                ).emit(Event::AssetStatusChanged { asset_id: id }),
            )
        }
    }

    /// The class `id` with `metadata` in place of its own.
    pub open spec fn with_metadata(self, id: AssetId, metadata: Option<MetadataModel>) -> Self {
        self.with_asset(id, AssetModel { metadata, ..self.assets[id] })
    }

    /// `force_clear_metadata`, by the privileged origin: the metadata goes
    /// and its deposit returns to the owner.
    pub open spec fn force_clear_metadata_result(self, origin: Origin, id: AssetId) -> Result<Self, Error> {
        if origin != Origin::Root {
            Err(Error::BadOrigin)
        } else if !self.assets.contains_key(id) || self.assets[id].metadata is None {
            Err(Error::Unknown)
        } else {
            Ok(
                self.with_metadata(id, None).with_native(
                    unreserve_spec(self.native, self.assets[id].details.owner, self.metadata_deposit(id)),
                ).emit(Event::MetadataCleared { asset_id: id }),
            )
        }
    }

    /// Why `force_set_metadata` is refused, if it is.
    pub open spec fn force_set_metadata_error(
        self,
        origin: Origin,
        id: AssetId,
        lens: Seq<nat>,
    ) -> Option<Error> {
        if origin != Origin::Root {
            Some(Error::BadOrigin)
        } else if exists|k: int| 0 <= k < lens.len() && lens[k] > self.config.string_limit {
            Some(Error::BadMetadata)
        } else if !self.assets.contains_key(id) {
            Some(Error::Unknown)
        } else {
            None
        }
    }

    /// Why `set_project_data` is refused, if it is.
    pub open spec fn project_data_error(self, caller: AccountId, id: AssetId, url_len: nat, data_len: nat) -> Option<
        Error,
    > {
        if url_len > self.config.string_limit || data_len > self.config.string_limit {
            Some(Error::BadMetadata)
        } else if !self.assets.contains_key(id) {
            Some(Error::Unknown)
        } else if caller != self.assets[id].details.owner && self.custodian != Some(caller) {
            Some(Error::NoPermission)
        } else if self.assets[id].details.supply > 0 {
            Some(Error::CannotChangeAfterMint)
        } else if self.assets[id].metadata is None {
            Some(Error::NoMetadata)
        } else {
            None
        }
    }

    /// The metadata deposit for a name and a symbol of these lengths.
    pub open spec fn metadata_deposit_for(self, name_len: nat, symbol_len: nat) -> Balance {
        let per = self.config.metadata_deposit_per_byte * (name_len + symbol_len);
        let per_sat = if per > u64::MAX {
            u64::MAX as int
        } else {
            per
        };
        let total = per_sat + self.config.metadata_deposit_base;
        if total > u64::MAX {
            u64::MAX
        } else {
            total as u64
        }
    }

    /// Why `create` is refused, if it is, where `id` is the identifier it would give.
    pub open spec fn create_error(self, caller: AccountId, id: AssetId, name_len: nat, symbol_len: nat) -> Option<
        Error,
    > {
        if self.custodian is None {
            Some(Error::NoCustodian)
        } else if self.nonce == u64::MAX {
            Some(Error::Overflow)
        } else if self.assets.contains_key(id) {
            Some(Error::ErrorCreatingAssetId)
        } else {
            match reserve_spec(self.native, caller, self.config.asset_deposit) {
                Err(e) => Some(e),
                Ok(n1) => if name_len > self.config.string_limit || symbol_len > self.config.string_limit {
                    Some(Error::BadMetadata)
                } else {
                    match reserve_spec(n1, caller, self.metadata_deposit_for(name_len, symbol_len)) {
                        Err(e) => Some(e),
                        Ok(_) => None,
                    }
                },
            }
        }
    }

    /// The ledger after `create` made the class `id`, without its events.
    pub open spec fn create_state(self, caller: AccountId, id: AssetId, name: Seq<u8>, symbol: Seq<u8>) -> Self {
        let custodian = self.custodian->Some_0;
        let deposit = self.config.asset_deposit;
        let md = self.metadata_deposit_for(name.len(), symbol.len());
        let n1 = reserve_spec(self.native, caller, deposit)->Ok_0;
        let n2 = reserve_spec(n1, caller, md)->Ok_0;
        LedgerModel {
            assets: self.assets.insert(
                id,
                AssetModel {
                    details: AssetDetails {
                        owner: caller,
                        issuer: custodian,
                        admin: custodian,
                        freezer: custodian,
                        supply: 0,
                        deposit,
                        min_balance: 1,
                        is_sufficient: false,
                        accounts: 0,
                        sufficients: 0,
                        approvals: 0,
                        is_frozen: false,
                    },
                    metadata: Some(
                        MetadataModel {
                            deposit: md,
                            name,
                            symbol,
                            url: Seq::empty(),
                            data_ipfs: Seq::empty(),
                            decimals: 9,
                            is_frozen: false,
                        },
                    ),
                    accounts: Map::empty(),
                    approvals: Map::empty(),
                },
            ),
            nonce: (self.nonce + 1) as u64,
            created: self.created.insert(caller, id),
            native: n2,
            ..self
        }
    }

    /// Why `destroy` is refused, if it is.
    pub open spec fn destroy_error(self, origin: Origin, id: AssetId, witness: DestroyWitness) -> Option<Error> {
        if !self.assets.contains_key(id) {
            Some(Error::Unknown)
        } else {
            let d = self.assets[id].details;
            match origin {
                Origin::Signed(x) if x != d.owner => Some(Error::NoPermission),
                _ => if d.accounts > witness.accounts || d.sufficients > witness.sufficients
                    || d.approvals > witness.approvals {
                    Some(Error::BadWitness)
                } else {
                    None
                },
            }
        }
    }

    /// The ledger after `destroy` removed `id`, having reaped its accounts in
    /// the order `hs` and returned the approval deposits in the order `al`.
    pub open spec fn destroy_state(self, id: AssetId, hs: Seq<Holding>, al: Seq<Allowance>) -> Self {
        let a = self.assets[id];
        let total = a.details.deposit + self.metadata_deposit(id);
        let deposit = if total > u64::MAX {
            u64::MAX
        } else {
            total as u64
        };
        LedgerModel {
            assets: self.assets.remove(id),
            native: release_approvals(
                unreserve_spec(release_holdings(self.native, hs), a.details.owner, deposit),
                al,
            ),
            died: self.died + died_of(id, hs),
            events: self.events.push(Event::Destroyed { asset_id: id }),
            ..self
        }
    }

    /// `mint_into`: `amount` of new supply credited to `who`.
    pub open spec fn mint_into_result(self, id: AssetId, who: AccountId, amount: Balance) -> Result<Self, Error> {
        if amount == 0 {
            Ok(self)
        } else {
            match self.can_increase(id, who, amount, true) {
                Err(e) => Err(e),
                Ok(_) => Ok(
                    self.issue(id, who, amount).emit(
                        Event::Issued { asset_id: id, owner: who, total_supply: amount },
                    ),
                ),
            }
        }
    }

    /// Whether `amount` may be taken from `who` in `id`: the dust that would
    /// go with it (what a reaped account would leave), or why not.
    pub open spec fn can_decrease(self, id: AssetId, who: AccountId, amount: Balance, keep_alive: bool) -> Result<
        Balance,
        Error,
    > {
        if !self.assets.contains_key(id) {
            Err(Error::Unknown)
        } else {
            let a = self.assets[id];
            let min = a.details.min_balance;
            if a.details.is_frozen {
                Err(Error::Frozen)
            } else if !a.accounts.contains_key(who) {
                Err(Error::NoAccount)
            } else if a.accounts[who].is_frozen {
                Err(Error::Frozen)
            } else if a.accounts[who].balance < amount {
                Err(Error::Underflow)
            } else {
                let rest = a.accounts[who].balance - amount;
                match self.frozen_of(id, who) {
                    Some(f) if f + min > u64::MAX => Err(Error::Overflow),
                    Some(f) if rest < f + min => Err(Error::Frozen),
                    _ => if rest < min {
                        if keep_alive {
                            Err(Error::WouldDie)
                        } else {
                            Ok(rest as u64)
                        }
                    } else {
                        Ok(0)
                    },
                }
            }
        }
    }

    /// `mint`: the issuer of `id` credits `amount` to the owner of `id`.
    pub open spec fn mint_result(self, caller: AccountId, id: AssetId, amount: Balance) -> Result<
        Self,
        Error,
    > {
        if !self.assets.contains_key(id) {
            Err(Error::Unknown)
        } else {
            let d = self.assets[id].details;
            let issued = Event::Issued { asset_id: id, owner: d.owner, total_supply: amount };
            if caller != d.issuer {
                Err(Error::NoPermission)
            } else if amount == 0 {
                Ok(self.emit(issued))
            } else {
                match self.can_increase(id, d.owner, amount, true) {
                    Err(e) => Err(e),
                    Ok(_) => Ok(self.issue(id, d.owner, amount).emit(issued)),
                }
            }
        }
    }
}

/// Each stored deposit is the one the constants ask for: every approval
/// holds the approval deposit, every deposit-held account the account deposit.
pub open spec fn deposits_fixed(m: LedgerModel) -> bool {
    &&& forall|id: AssetId, k: (AccountId, AccountId)|
        m.assets.contains_key(id) && #[trigger] m.assets[id].approvals.contains_key(k)
            ==> m.assets[id].approvals[k].deposit == m.config.approval_deposit
    &&& forall|id: AssetId, who: AccountId|
        m.assets.contains_key(id) && #[trigger] m.assets[id].accounts.contains_key(who)
            && m.assets[id].accounts[who].reason is DepositHeld
            ==> m.assets[id].accounts[who].reason->DepositHeld_0 == m.config.asset_account_deposit
}

/// What reaping the accounts `hs` of a destroyed class releases on the native ledger.
pub open spec fn release_holdings(n: Map<AccountId, NativeAccount>, hs: Seq<Holding>) -> Map<
    AccountId,
    NativeAccount,
>
    decreases hs.len(),
{
    if hs.len() == 0 {
        n
    } else {
        let n1 = release_holdings(n, hs.drop_last());
        let h = hs.last();
        match h.account.reason {
            ExistenceReason::Consumer => dec_consumers_spec(n1, h.who),
            ExistenceReason::Sufficient => dec_sufficients_spec(n1, h.who),
            ExistenceReason::DepositHeld(_) => n1,
        }
    }
}

/// The approval deposits of `al` returned to their owners.
pub open spec fn release_approvals(n: Map<AccountId, NativeAccount>, al: Seq<Allowance>) -> Map<
    AccountId,
    NativeAccount,
>
    decreases al.len(),
{
    if al.len() == 0 {
        n
    } else {
        unreserve_spec(
            release_approvals(n, al.drop_last()),
            al.last().owner,
            al.last().approval.deposit,
        )
    }
}

/// The deaths that reaping `hs` records.
pub open spec fn died_of(id: AssetId, hs: Seq<Holding>) -> Seq<(AssetId, AccountId)> {
    hs.map_values(|h: Holding| (id, h.who))
}

/// `e` reports metadata set for `id` with these values.
pub open spec fn is_metadata_set(
    e: Event,
    id: AssetId,
    name: Seq<u8>,
    symbol: Seq<u8>,
    decimals: u8,
    is_frozen: bool,
) -> bool {
    match e {
        Event::MetadataSet { asset_id, name: n, symbol: s, decimals: d, is_frozen: f } => asset_id
            == id && n@ == name && s@ == symbol && d == decimals && f == is_frozen,
        _ => false,
    }
}

/// `e` reports the project data of `id` updated to these values.
pub open spec fn is_metadata_updated(e: Event, id: AssetId, url: Seq<u8>, data_ipfs: Seq<u8>) -> bool {
    match e {
        Event::MetadataUpdated { asset_id, url: u, data_ipfs: d } => asset_id == id && u@ == url
            && d@ == data_ipfs,
        _ => false,
    }
}

/// `new` is `expected` but for events, to which `count` were appended.
pub open spec fn with_new_events(old: LedgerModel, new: LedgerModel, expected: LedgerModel, count: nat) -> bool {
    &&& new.events.len() == old.events.len() + count
    &&& new.events.take(old.events.len() as int) == old.events
    &&& new == LedgerModel { events: new.events, ..expected }
}

/// A ledger with no class, no custodian and no native funds; the nonce starts at 100.
pub open spec fn empty_ledger(config: Config) -> LedgerModel {
    LedgerModel {
        config,
        assets: Map::empty(),
        certificates: Map::empty(),
        custodian: None,
        nonce: 100,
        created: Map::empty(),
        native: Map::empty(),
        frozen: Map::empty(),
        events: Seq::empty(),
        died: Seq::empty(),
    }
}

/// Runs `step` over `items` in order from `init`, stopping at the first error.
pub open spec fn run_steps<S, T>(init: S, items: Seq<T>, step: spec_fn(S, T) -> Result<S, Error>) -> Result<
    S,
    Error,
>
    decreases items.len(),
{
    if items.len() == 0 {
        Ok(init)
    } else {
        match run_steps(init, items.drop_last(), step) {
            Err(e) => Err(e),
            Ok(s) => step(s, items.last()),
        }
    }
}

pub proof fn lemma_run_steps_next<S, T>(
    init: S,
    items: Seq<T>,
    step: spec_fn(S, T) -> Result<S, Error>,
    k: int,
)
    requires
        0 <= k < items.len(),
    ensures
        run_steps(init, items.take(k + 1), step) == match run_steps(init, items.take(k), step) {
            Err(e) => Err(e),
            Ok(s) => step(s, items[k]),
        },
{
    assert(items.take(k + 1).drop_last() =~= items.take(k));
}

pub proof fn lemma_run_steps_stop<S, T>(
    init: S,
    items: Seq<T>,
    step: spec_fn(S, T) -> Result<S, Error>,
    k: int,
)
    requires
        0 <= k <= items.len(),
        run_steps(init, items.take(k), step) is Err,
    ensures
        run_steps(init, items, step) == run_steps(init, items.take(k), step),
    decreases items.len() - k,
{
    if k == items.len() {
        assert(items.take(k) =~= items);
    } else {
        lemma_run_steps_next(init, items, step, k);
        lemma_run_steps_stop(init, items, step, k + 1);
    }
}

/// The details of a class made at genesis.
pub open spec fn genesis_asset(owner: AccountId, is_sufficient: bool, min_balance: Balance) -> AssetModel {
    AssetModel {
        details: AssetDetails {
            owner,
            issuer: owner,
            admin: owner,
            freezer: owner,
            supply: 0,
            deposit: 0,
            min_balance,
            is_sufficient,
            accounts: 0,
            sufficients: 0,
            approvals: 0,
            is_frozen: false,
        },
        metadata: None,
        accounts: Map::empty(),
        approvals: Map::empty(),
    }
}

/// A genesis class: refused where its identifier is taken or its minimum balance is zero.
pub open spec fn genesis_asset_step() -> spec_fn(LedgerModel, (AssetId, AccountId, bool, Balance)) -> Result<
    LedgerModel,
    Error,
> {
    |m: LedgerModel, t: (AssetId, AccountId, bool, Balance)|
        if m.assets.contains_key(t.0) {
            Err(Error::InUse)
        } else if t.3 == 0 {
            Err(Error::MinBalanceZero)
        } else {
            Ok(m.with_asset(t.0, genesis_asset(t.1, t.2, t.3)))
        }
}

/// Genesis metadata: refused for an unknown class or a name or symbol that is too long.
pub open spec fn genesis_metadata_step() -> spec_fn(LedgerModel, (AssetId, Vec<u8>, Vec<u8>, u8)) -> Result<
    LedgerModel,
    Error,
> {
    |m: LedgerModel, t: (AssetId, Vec<u8>, Vec<u8>, u8)|
        if !m.assets.contains_key(t.0) {
            Err(Error::Unknown)
        } else if t.1@.len() > m.config.string_limit || t.2@.len() > m.config.string_limit {
            Err(Error::BadMetadata)
        } else {
            Ok(
                m.with_metadata(
                    t.0,
                    Some(
                        MetadataModel {
                            deposit: 0,
                            name: t.1@,
                            symbol: t.2@,
                            url: Seq::empty(),
                            data_ipfs: Seq::empty(),
                            decimals: t.3,
                            is_frozen: false,
                        },
                    ),
                ),
            )
        }
}

/// A genesis holding: new supply credited as by a mint.
pub open spec fn genesis_account_step() -> spec_fn(LedgerModel, (AssetId, AccountId, Balance)) -> Result<
    LedgerModel,
    Error,
> {
    |m: LedgerModel, t: (AssetId, AccountId, Balance)|
        if t.2 == 0 {
            Ok(m)
        } else {
            match m.can_increase(t.0, t.1, t.2, true) {
                Err(e) => Err(e),
                Ok(_) => Ok(m.issue(t.0, t.1, t.2)),
            }
        }
}

/// What a genesis configuration builds on the empty ledger `empty`.
pub open spec fn genesis_result(empty: LedgerModel, g: GenesisConfig) -> Result<LedgerModel, Error> {
    let m0 = LedgerModel { custodian: g.custodian, ..empty };
    match run_steps(m0, g.assets@, genesis_asset_step()) {
        Err(e) => Err(e),
        Ok(m1) => match run_steps(m1, g.metadata@, genesis_metadata_step()) {
            Err(e) => Err(e),
            Ok(m2) => run_steps(m2, g.accounts@, genesis_account_step()),
        },
    }
}

/// The balance of an account.
pub open spec fn account_balance() -> spec_fn(AssetAccount) -> int {
    |a: AssetAccount| a.balance as int
}

/// One for a sufficient account, zero for any other.
pub open spec fn account_sufficient() -> spec_fn(AssetAccount) -> int {
    |a: AssetAccount|
        if a.reason == ExistenceReason::Sufficient {
            1int
        } else {
            0int
        }
}

pub open spec fn approval_none() -> spec_fn(Approval) -> int {
    |a: Approval| 0int
}

pub open spec fn allowance_none() -> spec_fn(Allowance) -> int {
    |a: Allowance| 0int
}

/// Every certificate stays, and none shrinks.
pub open spec fn certificates_grow(old: LedgerModel, new: LedgerModel) -> bool {
    forall|k: (AccountId, AssetId)|
        #[trigger] old.certificates.contains_key(k) ==> new.certificates.contains_key(k)
            && new.certificates[k] >= old.certificates[k]
}

} // verus!
