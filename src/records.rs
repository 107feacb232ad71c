//! How an asset class is stored: its details, metadata, accounts and
//! approvals, and the consistency that the ledger keeps among them.

use crate::store::{as_map, seq_sum, unique, Keyed};
use crate::types::{
    AccountId, Approval, AssetAccount, AssetDetails, AssetId, AssetMetadata, Balance,
    ExistenceReason, MetadataModel,
};
use vstd::prelude::*;

verus! {

/// The account of `who` in one asset class.
#[derive(Clone, Copy, Debug)]
pub struct Holding {
    pub who: AccountId,
    pub account: AssetAccount,
}

impl Keyed for Holding {
    type K = AccountId;

    type V = AssetAccount;

    open spec fn key(self) -> AccountId {
        self.who
    }

    open spec fn val(self) -> AssetAccount {
        self.account
    }
}

/// What `owner` lets `delegate` move in one asset class.
#[derive(Clone, Copy, Debug)]
pub struct Allowance {
    pub owner: AccountId,
    pub delegate: AccountId,
    pub approval: Approval,
}

impl Keyed for Allowance {
    type K = (AccountId, AccountId);

    type V = Approval;

    open spec fn key(self) -> (AccountId, AccountId) {
        (self.owner, self.delegate)
    }

    open spec fn val(self) -> Approval {
        self.approval
    }
}

/// The total burned by `who` in the asset class `id`.
#[derive(Clone, Copy, Debug)]
pub struct Certificate {
    pub who: AccountId,
    pub id: AssetId,
    pub burned: Balance,
}

impl Keyed for Certificate {
    type K = (AccountId, AssetId);

    type V = Balance;

    open spec fn key(self) -> (AccountId, AssetId) {
        (self.who, self.id)
    }

    open spec fn val(self) -> Balance {
        self.burned
    }
}

/// A part of the balance of `who` in `id` that an outside rule keeps frozen.
#[derive(Clone, Copy, Debug)]
pub struct FrozenEntry {
    pub id: AssetId,
    pub who: AccountId,
    pub amount: Balance,
}

impl Keyed for FrozenEntry {
    type K = (AssetId, AccountId);

    type V = Balance;

    open spec fn key(self) -> (AssetId, AccountId) {
        (self.id, self.who)
    }

    open spec fn val(self) -> Balance {
        self.amount
    }
}

/// An asset class as a mathematical value.
pub struct AssetModel {
    pub details: AssetDetails,
    pub metadata: Option<MetadataModel>,
    pub accounts: Map<AccountId, AssetAccount>,
    pub approvals: Map<(AccountId, AccountId), Approval>,
}

pub open spec fn metadata_view(m: Option<AssetMetadata>) -> Option<MetadataModel> {
    match m {
        Some(x) => Some(x@),
        None => None,
    }
}

/// An asset class with everything stored under it.
pub struct AssetRecord {
    pub id: AssetId,
    pub details: AssetDetails,
    pub metadata: Option<AssetMetadata>,
    pub holdings: Vec<Holding>,
    pub allowances: Vec<Allowance>,
}

impl Keyed for AssetRecord {
    type K = AssetId;

    type V = AssetModel;

    open spec fn key(self) -> AssetId {
        self.id
    }

    open spec fn val(self) -> AssetModel {
        AssetModel {
            details: self.details,
            metadata: metadata_view(self.metadata),
            accounts: as_map(self.holdings@),
            approvals: as_map(self.allowances@),
        }
    }
}

pub open spec fn balance_weight() -> spec_fn(Holding) -> int {
    |h: Holding| h.account.balance as int
}

pub open spec fn sufficient_weight() -> spec_fn(Holding) -> int {
    |h: Holding|
        if h.account.reason == ExistenceReason::Sufficient {
            1int
        } else {
            0int
        }
}

/// The reference counts and the supply of an asset class agree with what is stored under it.
pub open spec fn record_wf(r: AssetRecord) -> bool {
    &&& unique(r.holdings@)
    &&& unique(r.allowances@)
    &&& r.details.supply == seq_sum(r.holdings@, balance_weight())
    &&& r.details.accounts == r.holdings@.len()
    &&& r.details.sufficients == seq_sum(r.holdings@, sufficient_weight())
    &&& r.details.approvals == r.allowances@.len()
}

/// Everything of `record_wf` but the supply.
pub open spec fn record_shape(r: AssetRecord) -> bool {
    &&& unique(r.holdings@)
    &&& unique(r.allowances@)
    &&& r.details.accounts == r.holdings@.len()
    &&& r.details.sufficients == seq_sum(r.holdings@, sufficient_weight())
    &&& r.details.approvals == r.allowances@.len()
}

} // verus!
