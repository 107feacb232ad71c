//! The values that the asset ledger stores, reports and is configured with.

use vstd::prelude::*;

verus! {

/// An opaque identifier of an asset class.
pub type AssetId = [u8; 24];

pub type AccountId = u64;

pub type Balance = u64;

/// Who issues a command: the privileged origin, or a signed account.
#[derive(Clone, Copy, Debug, PartialEq, Eq, Structural)]
pub enum Origin {
    Root,
    Signed(AccountId),
}

/// The tuning constants of a ledger.
#[derive(Clone, Copy, Debug, PartialEq, Eq, Structural)]
pub struct Config {
    /// Reserved from the creator of an asset class.
    pub asset_deposit: Balance,
    /// Reserved from a holder who opens an account with `touch`.
    pub asset_account_deposit: Balance,
    /// Reserved for metadata, whatever its length.
    pub metadata_deposit_base: Balance,
    /// Reserved for each byte of a metadata name and symbol.
    pub metadata_deposit_per_byte: Balance,
    /// Reserved for each live approval.
    pub approval_deposit: Balance,
    /// The longest name, symbol, url or data link that metadata may hold.
    pub string_limit: u32,
    /// How many consumer references an account may carry on the native ledger.
    pub max_consumers: u32,
}

/// Why an account of an asset class exists.
#[derive(Clone, Copy, Debug, PartialEq, Eq, Structural)]
pub enum ExistenceReason {
    /// It holds a consumer reference on the native ledger.
    Consumer,
    /// The asset class is sufficient: the holding keeps the account alive.
    Sufficient,
    /// Its holder reserved this deposit to open it.
    DepositHeld(Balance),
}

/// The details of an asset class.
#[derive(Clone, Copy, Debug, PartialEq, Eq, Structural)]
pub struct AssetDetails {
    pub owner: AccountId,
    pub issuer: AccountId,
    pub admin: AccountId,
    pub freezer: AccountId,
    pub supply: Balance,
    pub deposit: Balance,
    pub min_balance: Balance,
    pub is_sufficient: bool,
    pub accounts: u32,
    pub sufficients: u32,
    pub approvals: u32,
    pub is_frozen: bool,
}

/// The reference counts that `destroy` must be handed, each at least as large
/// as the asset class's own.
#[derive(Clone, Copy, Debug, PartialEq, Eq, Structural)]
pub struct DestroyWitness {
    pub accounts: u32,
    pub sufficients: u32,
    pub approvals: u32,
}

impl AssetDetails {
    pub fn destroy_witness(&self) -> (r: DestroyWitness)
        ensures
            r == (DestroyWitness {
                accounts: self.accounts,
                sufficients: self.sufficients,
                approvals: self.approvals,
            }),
    {
        DestroyWitness {
            accounts: self.accounts,
            sufficients: self.sufficients,
            approvals: self.approvals,
        }
    }
}

/// The holding of one account in one asset class.
#[derive(Clone, Copy, Debug, PartialEq, Eq, Structural)]
pub struct AssetAccount {
    pub balance: Balance,
    pub is_frozen: bool,
    pub reason: ExistenceReason,
}

/// A delegated allowance: what the delegate may still move, and the deposit
/// reserved from the owner for it.
#[derive(Clone, Copy, Debug, PartialEq, Eq, Structural)]
pub struct Approval {
    pub amount: Balance,
    pub deposit: Balance,
}

/// The descriptive data of an asset class.
#[derive(Clone, Debug, PartialEq, Eq)]
pub struct AssetMetadata {
    pub deposit: Balance,
    pub name: Vec<u8>,
    pub symbol: Vec<u8>,
    pub url: Vec<u8>,
    pub data_ipfs: Vec<u8>,
    pub decimals: u8,
    pub is_frozen: bool,
}

/// Metadata as a mathematical value.
pub struct MetadataModel {
    pub deposit: Balance,
    pub name: Seq<u8>,
    pub symbol: Seq<u8>,
    pub url: Seq<u8>,
    pub data_ipfs: Seq<u8>,
    pub decimals: u8,
    pub is_frozen: bool,
}

impl View for AssetMetadata {
    type V = MetadataModel;

    open spec fn view(&self) -> MetadataModel {
        MetadataModel {
            deposit: self.deposit,
            name: self.name@,
            symbol: self.symbol@,
            url: self.url@,
            data_ipfs: self.data_ipfs@,
            decimals: self.decimals,
            is_frozen: self.is_frozen,
        }
    }
}

/// Why a ledger command was refused.
#[derive(Clone, Copy, Debug, PartialEq, Eq, Structural)]
pub enum Error {
    /// The balance is below what the command would take.
    BalanceLow,
    /// The account to alter does not exist.
    NoAccount,
    /// The caller may not do this.
    NoPermission,
    /// The asset class, or the approval, is unknown.
    Unknown,
    /// The asset class or the account is frozen.
    Frozen,
    /// The asset identifier is taken.
    InUse,
    /// The witness under-reports a reference count.
    BadWitness,
    /// The minimum balance must be non-zero.
    MinBalanceZero,
    /// The account holds no provider reference for a consumer.
    NoProvider,
    /// A metadata string is too long.
    BadMetadata,
    /// No approval allows the transfer.
    Unapproved,
    /// The source would not survive the transfer.
    WouldDie,
    /// The account exists already.
    AlreadyExists,
    /// The account holds no deposit.
    NoDeposit,
    /// The command would burn funds.
    WouldBurn,
    /// No custodian is set.
    NoCustodian,
    /// The asset class has no metadata.
    NoMetadata,
    /// The asset class has been minted already.
    CannotChangeAfterMint,
    /// The generated identifier is taken; try again.
    ErrorCreatingAssetId,
    /// The origin is not the one the command needs.
    BadOrigin,
    /// An amount or a count would exceed its type.
    Overflow,
    /// An amount would fall below zero.
    Underflow,
    /// A new account would hold less than the minimum balance.
    BelowMinimum,
    /// A new account could not be created.
    CannotCreate,
    /// The asset class does not exist.
    UnknownAsset,
    /// The asset class is frozen and an account would be created.
    Blocked,
    /// The native balance cannot cover a reservation.
    InsufficientBalance,
}

/// What a successful ledger command reports.
#[derive(Clone, Debug, PartialEq, Eq)]
pub enum Event {
    Created { asset_id: AssetId, creator: AccountId },
    Issued { asset_id: AssetId, owner: AccountId, total_supply: Balance },
    Transferred { asset_id: AssetId, from: AccountId, to: AccountId, amount: Balance },
    Burned { asset_id: AssetId, owner: AccountId, balance: Balance },
    TeamChanged { asset_id: AssetId, issuer: AccountId, admin: AccountId, freezer: AccountId },
    OwnerChanged { asset_id: AssetId, owner: AccountId },
    Frozen { asset_id: AssetId, who: AccountId },
    Thawed { asset_id: AssetId, who: AccountId },
    AssetFrozen { asset_id: AssetId },
    AssetThawed { asset_id: AssetId },
    Destroyed { asset_id: AssetId },
    ForceCreated { asset_id: AssetId, owner: AccountId },
    MetadataSet {
        asset_id: AssetId,
        name: Vec<u8>,
        symbol: Vec<u8>,
        decimals: u8,
        is_frozen: bool,
    },
    MetadataCleared { asset_id: AssetId },
    ApprovedTransfer {
        asset_id: AssetId,
        source: AccountId,
        delegate: AccountId,
        amount: Balance,
    },
    ApprovalCancelled { asset_id: AssetId, owner: AccountId, delegate: AccountId },
    TransferredApproved {
        asset_id: AssetId,
        owner: AccountId,
        delegate: AccountId,
        destination: AccountId,
        amount: Balance,
    },
    AssetStatusChanged { asset_id: AssetId },
    CustodianSet { custodian: AccountId },
    MetadataUpdated { asset_id: AssetId, url: Vec<u8>, data_ipfs: Vec<u8> },
    CarbonCreditsBurned { account: AccountId, asset_id: AssetId, amount: Balance },
}

/// Two asset identifiers are equal.
pub fn same_id(a: &AssetId, b: &AssetId) -> (r: bool)
    ensures
        r == (*a == *b),
{
    let mut i: usize = 0;
    while i < 24
        invariant
            i <= 24,
            forall|j: int| 0 <= j < i ==> a[j] == b[j],
        decreases 24 - i,
    {
        if a[i] != b[i] {
            return false;
        }
        i = i + 1;
    }
    proof {
        assert(a@ =~= b@);
        vstd::array::axiom_array_ext_equal(*a, *b);
    }
    true
}

} // verus!
