//! The asset ledger: asset classes, their holdings and approvals, burn
//! certificates, and the deposits reserved on the native ledger for them.

use crate::asset_id::{derive_asset_id, derived_id};
use crate::model::{
    account_balance, account_sufficient, allowance_none, approval_none, certificates_grow,
    died_of, empty_ledger, genesis_account_step, genesis_asset_step, genesis_metadata_step,
    genesis_result, is_metadata_set, is_metadata_updated, lemma_run_steps_next,
    lemma_run_steps_stop, release_approvals, release_holdings, run_steps, with_new_events,
    deposits_fixed, DebitFlags, LedgerModel, TransferFlags,
};
use crate::native::{native_of, NativeAccount, NativeLedger};
use crate::records::{
    balance_weight, metadata_view, record_shape, record_wf, sufficient_weight, Allowance,
    AssetModel, AssetRecord, Certificate, FrozenEntry, Holding,
};
use crate::store::{
    as_map, has_key, lemma_as_map_sum, lemma_index, lemma_push, lemma_remove, lemma_sum_part,
    lemma_sum_push, lemma_sum_remove, lemma_sum_update, lemma_update, map_sum, seq_sum, unique,
    Keyed,
};
use crate::types::{
    same_id, AccountId, Approval, AssetAccount, AssetDetails, AssetId, AssetMetadata, Balance,
    Config, DestroyWitness, Error, Event, ExistenceReason, MetadataModel, Origin,
};
use std::collections::HashMap;
use vstd::prelude::*;

verus! {

broadcast use vstd::std_specs::hash::group_hash_axioms;

/// The initial state of a ledger: the custodian, the classes (identifier,
/// owner, sufficiency, minimum balance), their metadata (identifier, name,
/// symbol, decimals) and their first holdings (identifier, holder, balance).
pub struct GenesisConfig {
    pub custodian: Option<AccountId>,
    pub assets: Vec<(AssetId, AccountId, bool, Balance)>,
    pub metadata: Vec<(AssetId, Vec<u8>, Vec<u8>, u8)>,
    pub accounts: Vec<(AssetId, AccountId, Balance)>,
}

impl Default for GenesisConfig {
    fn default() -> (r: Self)
        ensures
            r.custodian is None,
            r.assets@.len() == 0,
            r.metadata@.len() == 0,
            r.accounts@.len() == 0,
    {
        GenesisConfig { custodian: None, assets: Vec::new(), metadata: Vec::new(), accounts: Vec::new() }
    }
}


/// The asset ledger.
pub struct Pallet {
    config: Config,
    assets: Vec<AssetRecord>,
    certificates: Vec<Certificate>,
    custodian: Option<AccountId>,
    nonce: u64,
    created: HashMap<AccountId, AssetId>,
    native: NativeLedger,
    frozen: Vec<FrozenEntry>,
    events: Vec<Event>,
    died: Vec<(AssetId, AccountId)>,
}

impl View for Pallet {
    type V = LedgerModel;

    closed spec fn view(&self) -> LedgerModel {
        LedgerModel {
            config: self.config,
            assets: as_map(self.assets@),
            certificates: as_map(self.certificates@),
            custodian: self.custodian,
            nonce: self.nonce,
            created: self.created@,
            native: self.native@,
            frozen: as_map(self.frozen@),
            events: self.events@,
            died: self.died@,
        }
    }
}

fn find_holding(hs: &Vec<Holding>, who: AccountId) -> (r: Option<usize>)
    ensures
        match r {
            Some(j) => j < hs@.len() && hs@[j as int].who == who,
            None => !has_key(hs@, who),
        },
{
    let mut j: usize = 0;
    while j < hs.len()
        invariant
            j <= hs@.len(),
            forall|k: int| 0 <= k < j ==> #[trigger] hs@[k].who != who,
        decreases hs@.len() - j,
    {
        if hs[j].who == who {
            return Some(j);
        }
        j = j + 1;
    }
    assert(forall|k: int| 0 <= k < hs@.len() ==> #[trigger] hs@[k].key() != who);
    None
}

fn find_allowance(al: &Vec<Allowance>, owner: AccountId, delegate: AccountId) -> (r: Option<usize>)
    ensures
        match r {
            Some(j) => j < al@.len() && al@[j as int].owner == owner && al@[j as int].delegate
                == delegate,
            None => !has_key(al@, (owner, delegate)),
        },
{
    let mut j: usize = 0;
    while j < al.len()
        invariant
            j <= al@.len(),
            forall|k: int| 0 <= k < j ==> #[trigger] al@[k].key() != (owner, delegate),
        decreases al@.len() - j,
    {
        if al[j].owner == owner && al[j].delegate == delegate {
            return Some(j);
        }
        j = j + 1;
    }
    None
}

impl Pallet {
    /// The stores are consistent: keys are distinct, each asset class's
    /// supply and reference counts agree with what is stored under it, and
    /// every stored approval or account deposit is the configured one. That
    /// reserved funds cover the deposits is kept apart, in `deposits`:
    /// `force_asset_status` may hand a class to an owner who never reserved
    /// its deposits.
    pub closed spec fn wf(&self) -> bool {
        &&& unique(self.assets@)
        &&& forall|i: int| 0 <= i < self.assets@.len() ==> record_wf(#[trigger] self.assets@[i])
        &&& unique(self.certificates@)
        &&& unique(self.frozen@)
        &&& deposits_fixed(self@)
    }

    /// An empty ledger with the given constants.
    pub fn new(config: Config) -> (r: Self)
        ensures
            r.wf(),
            r@ == empty_ledger(config),
    {
        let r = Pallet {
            config,
            assets: Vec::new(),
            certificates: Vec::new(),
            custodian: None,
            nonce: 100,
            created: HashMap::new(),
            native: NativeLedger::new(),
            frozen: Vec::new(),
            events: Vec::new(),
            died: Vec::new(),
        };
        assert(as_map(r.assets@) =~= Map::<AssetId, AssetModel>::empty());
        assert(as_map(r.certificates@) =~= Map::<(AccountId, AssetId), Balance>::empty());
        assert(as_map(r.frozen@) =~= Map::<(AssetId, AccountId), Balance>::empty());
        r
    }

    fn find_asset(&self, id: &AssetId) -> (r: Option<usize>)
        ensures
            match r {
                Some(i) => i < self.assets@.len() && self.assets@[i as int].id == *id,
                None => !self@.assets.contains_key(*id),
            },
    {
        let mut i: usize = 0;
        while i < self.assets.len()
            invariant
                i <= self.assets@.len(),
                forall|k: int| 0 <= k < i ==> #[trigger] self.assets@[k].key() != *id,
            decreases self.assets@.len() - i,
        {
            if same_id(&self.assets[i].id, id) {
                return Some(i);
            }
            i = i + 1;
        }
        None
    }

    fn find_frozen(&self, id: &AssetId, who: AccountId) -> (r: Option<Balance>)
        requires
            self.wf(),
        ensures
            r == self@.frozen_of(*id, who),
    {
        let mut i: usize = 0;
        while i < self.frozen.len()
            invariant
                i <= self.frozen@.len(),
                unique(self.frozen@),
                forall|k: int| 0 <= k < i ==> #[trigger] self.frozen@[k].key() != (*id, who),
            decreases self.frozen@.len() - i,
        {
            if self.frozen[i].who == who && same_id(&self.frozen[i].id, id) {
                proof {
                    lemma_index(self.frozen@, i as int);
                }
                return Some(self.frozen[i].amount);
            }
            i = i + 1;
        }
        None
    }

    /// `wf` but for the supply of the record at `i`.
    spec fn shape_at(&self, i: int) -> bool {
        &&& unique(self.assets@)
        &&& 0 <= i < self.assets@.len()
        &&& forall|k: int|
            0 <= k < self.assets@.len() && k != i ==> record_wf(#[trigger] self.assets@[k])
        &&& record_shape(self.assets@[i])
        &&& unique(self.certificates@)
        &&& unique(self.frozen@)
        &&& deposits_fixed(self@)
    }

    spec fn others_kept(&self, old: &Pallet, i: int) -> bool {
        &&& self.assets@.len() == old.assets@.len()
        &&& forall|k: int| 0 <= k < self.assets@.len() && k != i ==> self.assets@[k] == old.assets@[k]
        &&& self.assets@[i].id == old.assets@[i].id
        &&& self.certificates@ == old.certificates@
        &&& self.frozen@ == old.frozen@
    }

    proof fn lemma_record(&self, i: int)
        requires
            self.wf(),
            0 <= i < self.assets@.len(),
        ensures
            self@.assets.contains_key(self.assets@[i].id),
            self@.assets[self.assets@[i].id] == self.assets@[i].val(),
            record_wf(self.assets@[i]),
    {
        lemma_index(self.assets@, i);
    }

    /// The balance of `who` in `id`; zero without an account.
    pub fn balance(&self, id: AssetId, who: AccountId) -> (r: Balance)
        requires
            self.wf(),
        ensures
            r == self@.balance_of(id, who),
    {
        match self.find_asset(&id) {
            None => 0,
            Some(i) => {
                proof {
                    self.lemma_record(i as int);
                }
                match find_holding(&self.assets[i].holdings, who) {
                    None => 0,
                    Some(j) => {
                        proof {
                            lemma_index(self.assets@[i as int].holdings@, j as int);
                        }
                        self.assets[i].holdings[j].account.balance
                    },
                }
            },
        }
    }

    /// The supply and the holdings of the record at `i` agree.
    proof fn lemma_wf_from_shape(&self, i: int)
        requires
            self.shape_at(i),
            self.assets@[i].details.supply == seq_sum(self.assets@[i].holdings@, balance_weight()),
        ensures
            self.wf(),
    {
    }

    /// How much of the balance of `who` in `id` may leave it.
    pub fn reducible_balance(&self, id: AssetId, who: AccountId, keep_alive: bool) -> (r: Result<
        Balance,
        Error,
    >)
        requires
            self.wf(),
        ensures
            r == self@.reducible(id, who, keep_alive),
    {
        let i = match self.find_asset(&id) {
            None => return Err(Error::Unknown),
            Some(i) => i,
        };
        proof {
            self.lemma_record(i as int);
        }
        let rec = &self.assets[i];
        let min = rec.details.min_balance;
        if rec.details.is_frozen {
            return Err(Error::Frozen);
        }
        let j = match find_holding(&rec.holdings, who) {
            None => return Err(Error::NoAccount),
            Some(j) => j,
        };
        proof {
            lemma_index(rec.holdings@, j as int);
        }
        let acc = rec.holdings[j].account;
        if acc.is_frozen {
            return Err(Error::Frozen);
        }
        let bal = acc.balance;
        let amount = match self.find_frozen(&id, who) {
            Some(f) => {
                if f > u64::MAX - min {
                    return Err(Error::Overflow);
                }
                bal.saturating_sub(f + min)
            },
            None => if keep_alive {
                bal.saturating_sub(min)
            } else {
                bal
            },
        };
        if amount <= rec.details.supply {
            Ok(amount)
        } else {
            Ok(rec.details.supply)
        }
    }

    fn prep_debit(&self, id: AssetId, who: AccountId, amount: Balance, f: DebitFlags) -> (r: Result<
        Balance,
        Error,
    >)
        requires
            self.wf(),
        ensures
            r == self@.debit(id, who, amount, f),
            r is Ok ==> self@.assets.contains_key(id) && self@.assets[id].accounts.contains_key(who)
                && r->Ok_0 <= self@.assets[id].accounts[who].balance,
    {
        let red = self.reducible_balance(id, who, f.keep_alive)?;
        let actual = if red < amount {
            red
        } else {
            amount
        };
        if !f.best_effort && actual < amount {
            return Err(Error::BalanceLow);
        }
        let i = match self.find_asset(&id) {
            None => return Err(Error::Unknown),
            Some(i) => i,
        };
        proof {
            self.lemma_record(i as int);
        }
        let rec = &self.assets[i];
        let j = match find_holding(&rec.holdings, who) {
            None => return Err(Error::NoAccount),
            Some(j) => j,
        };
        proof {
            lemma_index(rec.holdings@, j as int);
        }
        let bal = rec.holdings[j].account.balance;
        if actual > 0 && bal - actual < rec.details.min_balance {
            Ok(bal)
        } else {
            Ok(actual)
        }
    }

    /// Whether `amount` may be credited to `who` in `id`; `minted` when the
    /// supply grows by it.
    pub fn can_increase(&self, id: AssetId, who: AccountId, amount: Balance, minted: bool) -> (r:
        Result<(), Error>)
        requires
            self.wf(),
        ensures
            r == self@.can_increase(id, who, amount, minted),
    {
        let i = match self.find_asset(&id) {
            None => return Err(Error::UnknownAsset),
            Some(i) => i,
        };
        proof {
            self.lemma_record(i as int);
        }
        let rec = &self.assets[i];
        if minted && rec.details.supply > u64::MAX - amount {
            return Err(Error::Overflow);
        }
        match find_holding(&rec.holdings, who) {
            Some(j) => {
                proof {
                    lemma_index(rec.holdings@, j as int);
                }
                if rec.holdings[j].account.balance > u64::MAX - amount {
                    Err(Error::Overflow)
                } else {
                    Ok(())
                }
            },
            None => {
                if rec.details.is_frozen {
                    Err(Error::Blocked)
                } else if amount < rec.details.min_balance {
                    Err(Error::BelowMinimum)
                } else if !rec.details.is_sufficient && !self.native.can_inc_consumer(
                    who,
                    self.config.max_consumers,
                ) {
                    Err(Error::CannotCreate)
                } else if rec.details.is_sufficient && rec.details.sufficients == u32::MAX {
                    Err(Error::Overflow)
                } else if rec.details.accounts == u32::MAX {
                    Err(Error::Overflow)
                } else {
                    Ok(())
                }
            },
        }
    }

    /// Credits `amount` to `who` in the record at `i`, leaving its supply alone.
    fn credit_at(&mut self, i: usize, who: AccountId, amount: Balance)
        requires
            old(self).shape_at(i as int),
            old(self)@.can_increase(old(self).assets@[i as int].id, who, amount, false) is Ok,
        ensures
            final(self).shape_at(i as int),
            final(self).others_kept(old(self), i as int),
            final(self)@ == old(self)@.credit(old(self).assets@[i as int].id, who, amount),
            final(self).assets@[i as int].details.supply == old(self).assets@[i as int].details.supply,
            seq_sum(final(self).assets@[i as int].holdings@, balance_weight()) == seq_sum(
                old(self).assets@[i as int].holdings@,
                balance_weight(),
            ) + amount,
    {
        let ghost s0 = self.assets@;
        let ghost r0 = self.assets@[i as int];
        proof {
            lemma_index(s0, i as int);
        }
        let mut rec = self.assets.remove(i);
        match find_holding(&rec.holdings, who) {
            Some(j) => {
                proof {
                    lemma_index(rec.holdings@, j as int);
                }
                let mut h = rec.holdings[j];
                h.account.balance = h.account.balance + amount;
                let ghost hs0 = rec.holdings@;
                rec.holdings.set(j, h);
                proof {
                    lemma_update(hs0, j as int, h);
                    lemma_sum_update(hs0, j as int, h, balance_weight());
                    lemma_sum_update(hs0, j as int, h, sufficient_weight());
                }
            },
            None => {
                let reason = if rec.details.is_sufficient {
                    rec.details.sufficients = rec.details.sufficients + 1;
                    self.native.inc_sufficients(who);
                    ExistenceReason::Sufficient
                } else {
                    self.native.inc_consumers(who);
                    ExistenceReason::Consumer
                };
                rec.details.accounts = rec.details.accounts + 1;
                let h = Holding { who, account: AssetAccount { balance: amount, is_frozen: false, reason } };
                let ghost hs0 = rec.holdings@;
                rec.holdings.push(h);
                proof {
                    lemma_push(hs0, h);
                    lemma_sum_push(hs0, h, balance_weight());
                    lemma_sum_push(hs0, h, sufficient_weight());
                }
            },
        }
        let ghost r1 = rec;
        self.assets.insert(i, rec);
        proof {
            assert(self.assets@ =~= s0.update(i as int, r1));
            lemma_update(s0, i as int, r1);
            assert(self@.assets =~= old(self)@.credit(r0.id, who, amount).assets);
        }
    }

    /// Takes `amount` from `who` in the record at `i`, reaping the account
    /// where it falls below the minimum balance and holds no deposit.
    fn take_at(&mut self, i: usize, who: AccountId, amount: Balance)
        requires
            old(self).shape_at(i as int),
            old(self)@.assets[old(self).assets@[i as int].id].accounts.contains_key(who),
            ({
                let a = old(self)@.assets[old(self).assets@[i as int].id];
                let bal = a.accounts[who].balance;
                amount <= bal && (bal - amount >= a.details.min_balance || bal == amount)
            }),
        ensures
            final(self).shape_at(i as int),
            final(self).others_kept(old(self), i as int),
            final(self)@ == old(self)@.take(old(self).assets@[i as int].id, who, amount),
            final(self).assets@[i as int].details.supply == old(self).assets@[i as int].details.supply,
            seq_sum(final(self).assets@[i as int].holdings@, balance_weight()) == seq_sum(
                old(self).assets@[i as int].holdings@,
                balance_weight(),
            ) - amount,
    {
        let ghost s0 = self.assets@;
        let ghost r0 = self.assets@[i as int];
        proof {
            lemma_index(s0, i as int);
        }
        let mut rec = self.assets.remove(i);
        let j = match find_holding(&rec.holdings, who) {
            Some(j) => j,
            None => {
                proof {
                    assert(false);
                }
                0
            },
        };
        proof {
            lemma_index(rec.holdings@, j as int);
        }
        let mut h = rec.holdings[j];
        h.account.balance = h.account.balance - amount;
        let ghost hs0 = rec.holdings@;
        let keep = h.account.balance >= rec.details.min_balance || match h.account.reason {
            ExistenceReason::DepositHeld(_) => true,
            _ => false,
        };
        if keep {
            rec.holdings.set(j, h);
            proof {
                lemma_update(hs0, j as int, h);
                lemma_sum_update(hs0, j as int, h, balance_weight());
                lemma_sum_update(hs0, j as int, h, sufficient_weight());
            }
        } else {
            rec.holdings.remove(j);
            rec.details.accounts = rec.details.accounts - 1;
            proof {
                lemma_remove(hs0, j as int);
                lemma_sum_remove(hs0, j as int, balance_weight());
                lemma_sum_remove(hs0, j as int, sufficient_weight());
            }
            match h.account.reason {
                ExistenceReason::Sufficient => {
                    proof {
                        lemma_sum_part(hs0, j as int, sufficient_weight());
                    }
                    rec.details.sufficients = rec.details.sufficients - 1;
                    self.native.dec_sufficients(who);
                },
                _ => {
                    self.native.dec_consumers(who);
                },
            }
            self.died.push((rec.id, who));
        }
        let ghost r1 = rec;
        self.assets.insert(i, rec);
        proof {
            assert(self.assets@ =~= s0.update(i as int, r1));
            lemma_update(s0, i as int, r1);
            assert(self@.assets =~= old(self)@.take(r0.id, who, amount).assets);
        }
    }

    /// Sets the supply of the record at `i`.
    fn set_supply_at(&mut self, i: usize, supply: Balance)
        requires
            old(self).shape_at(i as int),
        ensures
            final(self).shape_at(i as int),
            final(self).others_kept(old(self), i as int),
            final(self)@ == old(self)@.with_supply(old(self).assets@[i as int].id, supply),
            final(self).assets@[i as int].details.supply == supply,
            final(self).assets@[i as int].holdings@ == old(self).assets@[i as int].holdings@,
    {
        let ghost s0 = self.assets@;
        proof {
            lemma_index(s0, i as int);
        }
        let mut rec = self.assets.remove(i);
        rec.details.supply = supply;
        let ghost r1 = rec;
        self.assets.insert(i, rec);
        proof {
            assert(self.assets@ =~= s0.update(i as int, r1));
            lemma_update(s0, i as int, r1);
            assert(self@.assets =~= old(self)@.with_supply(s0[i as int].id, supply).assets);
        }
    }

    /// `mint`: the issuer of `id` credits `amount` to its owner.
    pub fn mint(&mut self, caller: AccountId, id: AssetId, amount: Balance) -> (r: Result<(), Error>)
        requires
            old(self).wf(),
        ensures
            final(self).wf(),
            certificates_grow(old(self)@, final(self)@),
            match old(self)@.mint_result(caller, id, amount) {
                Ok(m) => r is Ok && final(self)@ == m,
                Err(e) => r == Err::<(), Error>(e) && final(self)@ == old(self)@,
            },
    {
        let i = match self.find_asset(&id) {
            None => return Err(Error::Unknown),
            Some(i) => i,
        };
        proof {
            self.lemma_record(i as int);
        }
        let d = self.assets[i].details;
        let issued = Event::Issued { asset_id: id, owner: d.owner, total_supply: amount };
        if caller != d.issuer {
            return Err(Error::NoPermission);
        }
        if amount == 0 {
            self.events.push(issued);
            return Ok(());
        }
        self.can_increase(id, d.owner, amount, true)?;
        self.issue_at(i, d.owner, amount);
        self.events.push(issued);
        Ok(())
    }

    /// Raises the supply of the record at `i` by `amount` and credits it to `who`.
    fn issue_at(&mut self, i: usize, who: AccountId, amount: Balance)
        requires
            old(self).wf(),
            i < old(self).assets@.len(),
            old(self)@.can_increase(old(self).assets@[i as int].id, who, amount, true) is Ok,
        ensures
            final(self).wf(),
            certificates_grow(old(self)@, final(self)@),
            final(self)@ == old(self)@.issue(old(self).assets@[i as int].id, who, amount),
    {
        proof {
            self.lemma_record(i as int);
        }
        let supply = self.assets[i].details.supply;
        self.set_supply_at(i, supply + amount);
        self.credit_at(i, who, amount);
        proof {
            self.lemma_wf_from_shape(i as int);
        }
    }

    proof fn lemma_balance_le_supply(&self, i: int, j: int)
        requires
            self.wf(),
            0 <= i < self.assets@.len(),
            0 <= j < self.assets@[i].holdings@.len(),
        ensures
            self.assets@[i].holdings@[j].account.balance <= self.assets@[i].details.supply,
    {
        assert(record_wf(self.assets@[i]));
        assert forall|h: Holding| #[trigger] balance_weight()(h) >= 0 by {}
        lemma_sum_part(self.assets@[i].holdings@, j, balance_weight());
    }

    /// Locates the record of `id` and the account of `who` in it.
    fn locate(&self, id: &AssetId, who: AccountId) -> (r: (usize, usize))
        requires
            self.wf(),
            self@.assets.contains_key(*id),
            self@.assets[*id].accounts.contains_key(who),
        ensures
            r.0 < self.assets@.len(),
            self.assets@[r.0 as int].id == *id,
            r.1 < self.assets@[r.0 as int].holdings@.len(),
            self.assets@[r.0 as int].holdings@[r.1 as int].who == who,
            self.assets@[r.0 as int].holdings@[r.1 as int].account == self@.assets[*id].accounts[who],
            self.assets@[r.0 as int].details == self@.assets[*id].details,
    {
        let i = match self.find_asset(id) {
            Some(i) => i,
            None => {
                proof {
                    assert(false);
                }
                0
            },
        };
        proof {
            self.lemma_record(i as int);
        }
        let j = match find_holding(&self.assets[i].holdings, who) {
            Some(j) => j,
            None => {
                proof {
                    assert(false);
                }
                0
            },
        };
        proof {
            lemma_index(self.assets@[i as int].holdings@, j as int);
        }
        (i, j)
    }

    fn do_transfer(
        &mut self,
        id: AssetId,
        source: AccountId,
        dest: AccountId,
        amount: Balance,
        need_admin: Option<AccountId>,
        f: TransferFlags,
    ) -> (r: Result<Balance, Error>)
        requires
            old(self).wf(),
        ensures
            final(self).wf(),
            certificates_grow(old(self)@, final(self)@),
            match old(self)@.transfer_result(id, source, dest, amount, need_admin, f) {
                Ok((c, m)) => r == Ok::<Balance, Error>(c) && final(self)@ == m,
                Err(e) => r == Err::<Balance, Error>(e) && final(self)@ == old(self)@,
            },
    {
        if amount == 0 {
            if let Some(a) = need_admin {
                match self.asset_details(id) {
                    None => return Err(Error::Unknown),
                    Some(d) => if a != d.admin {
                        return Err(Error::NoPermission);
                    },
                }
            }
            return Ok(0);
        }
        let debit = self.prep_debit(
            id,
            source,
            amount,
            DebitFlags { keep_alive: f.keep_alive, best_effort: f.best_effort },
        )?;
        if debit == 0 {
            return Ok(0);
        }
        let credit = if f.burn_dust && debit >= amount {
            amount
        } else {
            debit
        };
        self.can_increase(id, dest, credit, false)?;
        let (i, j) = self.locate(&id, source);
        proof {
            self.lemma_record(i as int);
            self.lemma_balance_le_supply(i as int, j as int);
        }
        let d = self.assets[i].details;
        match need_admin {
            Some(a) => if a != d.admin {
                return Err(Error::NoPermission);
            },
            None => {},
        }
        let ev = Event::Transferred { asset_id: id, from: source, to: dest, amount: credit };
        if source == dest {
            self.events.push(ev);
            return Ok(credit);
        }
        self.set_supply_at(i, d.supply - (debit - credit));
        self.credit_at(i, dest, credit);
        self.take_at(i, source, debit);
        proof {
            self.lemma_wf_from_shape(i as int);
        }
        self.events.push(ev);
        Ok(credit)
    }

    fn decrease_balance(
        &mut self,
        id: AssetId,
        who: AccountId,
        amount: Balance,
        f: DebitFlags,
        need_admin: Option<AccountId>,
    ) -> (r: Result<Balance, Error>)
        requires
            old(self).wf(),
        ensures
            final(self).wf(),
            certificates_grow(old(self)@, final(self)@),
            match old(self)@.decrease_result(id, who, amount, f, need_admin) {
                Ok((a, m)) => r == Ok::<Balance, Error>(a) && final(self)@ == m,
                Err(e) => r == Err::<Balance, Error>(e) && final(self)@ == old(self)@,
            },
    {
        match self.asset_details(id) {
            None => return Err(Error::Unknown),
            Some(d) => match need_admin {
                Some(a) => if a != d.admin {
                    return Err(Error::NoPermission);
                },
                None => {},
            },
        }
        let actual = self.prep_debit(id, who, amount, f)?;
        if actual == 0 {
            return Ok(0);
        }
        let (i, j) = self.locate(&id, who);
        proof {
            self.lemma_record(i as int);
            self.lemma_balance_le_supply(i as int, j as int);
        }
        let d = self.assets[i].details;
        self.set_supply_at(i, d.supply - actual);
        self.take_at(i, who, actual);
        proof {
            self.lemma_wf_from_shape(i as int);
        }
        Ok(actual)
    }

    /// Adds `amount` to the certificate of `who` in `id`.
    fn certify(&mut self, who: AccountId, id: AssetId, amount: Balance)
        requires
            old(self).wf(),
        ensures
            final(self).wf(),
            certificates_grow(old(self)@, final(self)@),
            final(self)@ == old(self)@.certify(who, id, amount),
    {
        let ghost s0 = self.certificates@;
        let found = self.find_certificate(who, &id);
        if let Some(k) = found {
            proof {
                lemma_index(s0, k as int);
            }
            let mut c = self.certificates[k];
            c.burned = c.burned.saturating_add(amount);
            self.certificates.set(k, c);
            proof {
                lemma_update(s0, k as int, c);
            }
        } else {
            let c = Certificate { who, id, burned: amount };
            proof {
                assert(!as_map(s0).contains_key((who, id)));
            }
            self.certificates.push(c);
            proof {
                lemma_push(s0, c);
            }
        }
        proof {
            assert(self@.certificates =~= old(self)@.certify(who, id, amount).certificates);
        }
    }

    fn find_certificate(&self, who: AccountId, id: &AssetId) -> (r: Option<usize>)
        ensures
            match r {
                Some(k) => k < self.certificates@.len() && self.certificates@[k as int].key() == (who, *id),
                None => !has_key(self.certificates@, (who, *id)),
            },
    {
        let mut k: usize = 0;
        while k < self.certificates.len()
            invariant
                k <= self.certificates@.len(),
                forall|x: int| 0 <= x < k ==> #[trigger] self.certificates@[x].key() != (who, *id),
            decreases self.certificates@.len() - k,
        {
            if self.certificates[k].who == who && same_id(&self.certificates[k].id, id) {
                return Some(k);
            }
            k = k + 1;
        }
        None
    }

    /// The certificate of `who` in `id`, where one was written.
    pub fn burn_certificate(&self, who: AccountId, id: AssetId) -> (r: Option<Balance>)
        requires
            self.wf(),
        ensures
            r == (if self@.certificates.contains_key((who, id)) {
                Some(self@.certificates[(who, id)])
            } else {
                None::<Balance>
            }),
    {
        let mut k: usize = 0;
        while k < self.certificates.len()
            invariant
                k <= self.certificates@.len(),
                unique(self.certificates@),
                forall|x: int| 0 <= x < k ==> #[trigger] self.certificates@[x].key() != (who, id),
            decreases self.certificates@.len() - k,
        {
            if self.certificates[k].who == who && same_id(&self.certificates[k].id, &id) {
                proof {
                    lemma_index(self.certificates@, k as int);
                }
                return Some(self.certificates[k].burned);
            }
            k = k + 1;
        }
        None
    }

    /// `transfer`: the caller moves `amount` of `id` to `target`.
    pub fn transfer(&mut self, caller: AccountId, id: AssetId, target: AccountId, amount: Balance) -> (r:
        Result<(), Error>)
        requires
            old(self).wf(),
        ensures
            final(self).wf(),
            certificates_grow(old(self)@, final(self)@),
            match old(self)@.transfer_result(id, caller, target, amount, None, TransferFlags { keep_alive: false, best_effort: false, burn_dust: false }) {
                Ok((_, m)) => r is Ok && final(self)@ == m,
                Err(e) => r == Err::<(), Error>(e) && final(self)@ == old(self)@,
            },
    {
        let f = TransferFlags { keep_alive: false, best_effort: false, burn_dust: false };
        self.do_transfer(id, caller, target, amount, None, f)?;
        Ok(())
    }

    /// `transfer_keep_alive`: as `transfer`, refused where the caller's
    /// account would be reaped.
    pub fn transfer_keep_alive(&mut self, caller: AccountId, id: AssetId, target: AccountId, amount: Balance) -> (r:
        Result<(), Error>)
        requires
            old(self).wf(),
        ensures
            final(self).wf(),
            certificates_grow(old(self)@, final(self)@),
            match old(self)@.transfer_result(id, caller, target, amount, None, TransferFlags { keep_alive: true, best_effort: false, burn_dust: false }) {
                Ok((_, m)) => r is Ok && final(self)@ == m,
                Err(e) => r == Err::<(), Error>(e) && final(self)@ == old(self)@,
            },
    {
        let f = TransferFlags { keep_alive: true, best_effort: false, burn_dust: false };
        self.do_transfer(id, caller, target, amount, None, f)?;
        Ok(())
    }

    /// `force_transfer`: the admin of `id` moves `amount` from `source` to `dest`.
    pub fn force_transfer(
        &mut self,
        caller: AccountId,
        id: AssetId,
        source: AccountId,
        dest: AccountId,
        amount: Balance,
    ) -> (r: Result<(), Error>)
        requires
            old(self).wf(),
        ensures
            final(self).wf(),
            certificates_grow(old(self)@, final(self)@),
            match old(self)@.transfer_result(id, source, dest, amount, Some(caller), TransferFlags { keep_alive: false, best_effort: false, burn_dust: false }) {
                Ok((_, m)) => r is Ok && final(self)@ == m,
                Err(e) => r == Err::<(), Error>(e) && final(self)@ == old(self)@,
            },
    {
        let f = TransferFlags { keep_alive: false, best_effort: false, burn_dust: false };
        self.do_transfer(id, source, dest, amount, Some(caller), f)?;
        Ok(())
    }

    /// `burn`: the admin of `id` (the custodian, for classes made by
    /// `create`) burns `amount` from `who` and certifies it.
    pub fn burn(&mut self, caller: AccountId, id: AssetId, who: AccountId, amount: Balance) -> (r:
        Result<(), Error>)
        requires
            old(self).wf(),
        ensures
            final(self).wf(),
            certificates_grow(old(self)@, final(self)@),
            match old(self)@.burn_result(id, who, amount, Some(caller)) {
                Ok(m) => r is Ok && final(self)@ == m,
                Err(e) => r == Err::<(), Error>(e) && final(self)@ == old(self)@,
            },
    {
        let f = DebitFlags { keep_alive: false, best_effort: false };
        let actual = self.decrease_balance(id, who, amount, f, Some(caller))?;
        self.events.push(Event::Burned { asset_id: id, owner: who, balance: actual });
        self.certify(who, id, amount);
        self.events.push(Event::CarbonCreditsBurned { account: who, asset_id: id, amount });
        Ok(())
    }

    /// `self_burn`: the caller burns `amount` of its own holding and certifies it.
    pub fn self_burn(&mut self, caller: AccountId, id: AssetId, amount: Balance) -> (r: Result<
        (),
        Error,
    >)
        requires
            old(self).wf(),
        ensures
            final(self).wf(),
            certificates_grow(old(self)@, final(self)@),
            match old(self)@.burn_result(id, caller, amount, None) {
                Ok(m) => r is Ok && final(self)@ == m,
                Err(e) => r == Err::<(), Error>(e) && final(self)@ == old(self)@,
            },
    {
        let f = DebitFlags { keep_alive: false, best_effort: false };
        let actual = self.decrease_balance(id, caller, amount, f, None)?;
        self.events.push(Event::Burned { asset_id: id, owner: caller, balance: actual });
        self.certify(caller, id, amount);
        self.events.push(Event::CarbonCreditsBurned { account: caller, asset_id: id, amount });
        Ok(())
    }

    /// Replaces the details of the record at `i` by `d`, which keeps its
    /// supply and reference counts.
    fn set_details_at(&mut self, i: usize, d: AssetDetails)
        requires
            old(self).wf(),
            i < old(self).assets@.len(),
            d.supply == old(self).assets@[i as int].details.supply,
            d.accounts == old(self).assets@[i as int].details.accounts,
            d.sufficients == old(self).assets@[i as int].details.sufficients,
            d.approvals == old(self).assets@[i as int].details.approvals,
        ensures
            final(self).wf(),
            certificates_grow(old(self)@, final(self)@),
            final(self)@ == old(self)@.with_details(old(self).assets@[i as int].id, d),
    {
        let ghost s0 = self.assets@;
        proof {
            self.lemma_record(i as int);
        }
        let mut rec = self.assets.remove(i);
        rec.details = d;
        let ghost r1 = rec;
        self.assets.insert(i, rec);
        proof {
            assert(self.assets@ =~= s0.update(i as int, r1));
            lemma_update(s0, i as int, r1);
            assert(self@.assets =~= old(self)@.with_details(s0[i as int].id, d).assets);
        }
    }

    /// Sets the frozen flag of the account at `j` of the record at `i`.
    fn set_account_frozen_at(&mut self, i: usize, j: usize, frozen: bool)
        requires
            old(self).wf(),
            i < old(self).assets@.len(),
            j < old(self).assets@[i as int].holdings@.len(),
        ensures
            final(self).wf(),
            certificates_grow(old(self)@, final(self)@),
            ({
                let id = old(self).assets@[i as int].id;
                let who = old(self).assets@[i as int].holdings@[j as int].who;
                let a = old(self)@.assets[id];
                final(self)@ == old(self)@.with_asset(
                    id,
                    AssetModel {
                        accounts: a.accounts.insert(who, AssetAccount { is_frozen: frozen, ..a.accounts[who] }),
                        ..a
                    },
                )
            }),
    {
        let ghost s0 = self.assets@;
        proof {
            self.lemma_record(i as int);
            lemma_index(s0[i as int].holdings@, j as int);
        }
        let mut rec = self.assets.remove(i);
        let mut h = rec.holdings[j];
        h.account.is_frozen = frozen;
        let ghost hs0 = rec.holdings@;
        rec.holdings.set(j, h);
        proof {
            lemma_update(hs0, j as int, h);
            lemma_sum_update(hs0, j as int, h, balance_weight());
            lemma_sum_update(hs0, j as int, h, sufficient_weight());
        }
        let ghost r1 = rec;
        self.assets.insert(i, rec);
        proof {
            assert(self.assets@ =~= s0.update(i as int, r1));
            lemma_update(s0, i as int, r1);
            let id = s0[i as int].id;
            let who = s0[i as int].holdings@[j as int].who;
            let a = old(self)@.assets[id];
            assert(self@.assets =~= old(self)@.with_asset(
                id,
                AssetModel {
                    accounts: a.accounts.insert(who, AssetAccount { is_frozen: frozen, ..a.accounts[who] }),
                    ..a
                },
            ).assets);
        }
    }

    /// Writes `approval` for `(owner, delegate)` in the record at `i`,
    /// counting it when it is new.
    fn put_allowance_at(&mut self, i: usize, owner: AccountId, delegate: AccountId, approval: Approval)
        requires
            old(self).wf(),
            i < old(self).assets@.len(),
            old(self)@.assets[old(self).assets@[i as int].id].approvals.contains_key((owner, delegate))
                || old(self).assets@[i as int].details.approvals < u32::MAX,
            approval.deposit == old(self).config.approval_deposit,
        ensures
            final(self).wf(),
            certificates_grow(old(self)@, final(self)@),
            ({
                let id = old(self).assets@[i as int].id;
                let a = old(self)@.assets[id];
                let details = if a.approvals.contains_key((owner, delegate)) {
                    a.details
                } else {
                    AssetDetails { approvals: (a.details.approvals + 1) as u32, ..a.details }
                };
                final(self)@ == old(self)@.with_asset(
                    id,
                    AssetModel { details, approvals: a.approvals.insert((owner, delegate), approval), ..a },
                )
            }),
    {
        let ghost s0 = self.assets@;
        proof {
            self.lemma_record(i as int);
        }
        let mut rec = self.assets.remove(i);
        let ghost al0 = rec.allowances@;
        let e = Allowance { owner, delegate, approval };
        match find_allowance(&rec.allowances, owner, delegate) {
            Some(k) => {
                proof {
                    lemma_index(al0, k as int);
                }
                rec.allowances.set(k, e);
                proof {
                    lemma_update(al0, k as int, e);
                }
            },
            None => {
                rec.allowances.push(e);
                rec.details.approvals = rec.details.approvals + 1;
                proof {
                    lemma_push(al0, e);
                }
            },
        }
        let ghost r1 = rec;
        self.assets.insert(i, rec);
        proof {
            assert(self.assets@ =~= s0.update(i as int, r1));
            lemma_update(s0, i as int, r1);
            let id = s0[i as int].id;
            let a = old(self)@.assets[id];
            let details = if a.approvals.contains_key((owner, delegate)) {
                a.details
            } else {
                AssetDetails { approvals: (a.details.approvals + 1) as u32, ..a.details }
            };
            assert(self@.assets =~= old(self)@.with_asset(
                id,
                AssetModel { details, approvals: a.approvals.insert((owner, delegate), approval), ..a },
            ).assets);
        }
    }

    /// Removes the approval of `(owner, delegate)` in `id` and returns its deposit.
    fn drop_allowance(&mut self, id: AssetId, owner: AccountId, delegate: AccountId)
        requires
            old(self).wf(),
            old(self)@.assets.contains_key(id),
            old(self)@.assets[id].approvals.contains_key((owner, delegate)),
        ensures
            final(self).wf(),
            certificates_grow(old(self)@, final(self)@),
            final(self)@ == old(self)@.drop_approval(id, owner, delegate),
    {
        let i = match self.find_asset(&id) {
            Some(i) => i,
            None => {
                proof {
                    assert(false);
                }
                0
            },
        };
        let ghost s0 = self.assets@;
        proof {
            self.lemma_record(i as int);
        }
        let mut rec = self.assets.remove(i);
        let ghost al0 = rec.allowances@;
        let k = match find_allowance(&rec.allowances, owner, delegate) {
            Some(k) => k,
            None => {
                proof {
                    assert(false);
                }
                0
            },
        };
        proof {
            lemma_index(al0, k as int);
        }
        let deposit = rec.allowances[k].approval.deposit;
        rec.allowances.remove(k);
        rec.details.approvals = rec.details.approvals - 1;
        proof {
            lemma_remove(al0, k as int);
        }
        let ghost r1 = rec;
        self.assets.insert(i, rec);
        self.native.unreserve(owner, deposit);
        proof {
            assert(self.assets@ =~= s0.update(i as int, r1));
            lemma_update(s0, i as int, r1);
            assert(self@.assets =~= old(self)@.drop_approval(id, owner, delegate).assets);
        }
    }

    /// `approve_transfer`: the caller lets `delegate` move `amount` more of its holding.
    pub fn approve_transfer(&mut self, caller: AccountId, id: AssetId, delegate: AccountId, amount: Balance) -> (r:
        Result<(), Error>)
        requires
            old(self).wf(),
        ensures
            final(self).wf(),
            certificates_grow(old(self)@, final(self)@),
            match old(self)@.approve_result(id, caller, delegate, amount) {
                Ok(m) => r is Ok && final(self)@ == m,
                Err(e) => r == Err::<(), Error>(e) && final(self)@ == old(self)@,
            },
            r is Ok ==> final(self)@.assets[id].approvals[(caller, delegate)].deposit
                == old(self)@.config.approval_deposit && native_of(final(self)@.native, caller).reserved
                == native_of(old(self)@.native, caller).reserved + (if old(self)@.assets[id].approvals.contains_key(
                (caller, delegate),
            ) {
                0
            } else {
                old(self)@.config.approval_deposit
            }),
    {
        self.do_approve_transfer(id, caller, delegate, amount)
    }

    fn do_approve_transfer(&mut self, id: AssetId, owner: AccountId, delegate: AccountId, amount: Balance) -> (r:
        Result<(), Error>)
        requires
            old(self).wf(),
        ensures
            final(self).wf(),
            certificates_grow(old(self)@, final(self)@),
            match old(self)@.approve_result(id, owner, delegate, amount) {
                Ok(m) => r is Ok && final(self)@ == m,
                Err(e) => r == Err::<(), Error>(e) && final(self)@ == old(self)@,
            },
    {
        let i = match self.find_asset(&id) {
            None => return Err(Error::Unknown),
            Some(i) => i,
        };
        proof {
            self.lemma_record(i as int);
        }
        let d = self.assets[i].details;
        let (exists, prior) = match find_allowance(&self.assets[i].allowances, owner, delegate) {
            Some(k) => {
                proof {
                    lemma_index(self.assets@[i as int].allowances@, k as int);
                }
                (true, self.assets[i].allowances[k].approval)
            },
            None => (false, Approval { amount: 0, deposit: 0 }),
        };
        if d.is_frozen {
            return Err(Error::Frozen);
        }
        if !exists && d.approvals == u32::MAX {
            return Err(Error::Overflow);
        }
        let required = self.config.approval_deposit;
        let mut deposit = prior.deposit;
        if prior.deposit < required {
            self.native.reserve(owner, required - prior.deposit)?;
            deposit = required;
        }
        let approval = Approval { amount: prior.amount.saturating_add(amount), deposit };
        self.put_allowance_at(i, owner, delegate, approval);
        self.events.push(Event::ApprovedTransfer { asset_id: id, source: owner, delegate, amount });
        Ok(())
    }

    /// `transfer_approved`: the caller, a delegate of `owner`, moves `amount`
    /// of what `owner` approved to `destination`.
    pub fn transfer_approved(
        &mut self,
        caller: AccountId,
        id: AssetId,
        owner: AccountId,
        destination: AccountId,
        amount: Balance,
    ) -> (r: Result<(), Error>)
        requires
            old(self).wf(),
        ensures
            final(self).wf(),
            certificates_grow(old(self)@, final(self)@),
            match old(self)@.transfer_approved_result(id, owner, caller, destination, amount) {
                Ok(m) => r is Ok && final(self)@ == m,
                Err(e) => r == Err::<(), Error>(e) && final(self)@ == old(self)@,
            },
    {
        self.do_transfer_approved(id, owner, caller, destination, amount)
    }

    fn do_transfer_approved(
        &mut self,
        id: AssetId,
        owner: AccountId,
        delegate: AccountId,
        destination: AccountId,
        amount: Balance,
    ) -> (r: Result<(), Error>)
        requires
            old(self).wf(),
        ensures
            final(self).wf(),
            certificates_grow(old(self)@, final(self)@),
            match old(self)@.transfer_approved_result(id, owner, delegate, destination, amount) {
                Ok(m) => r is Ok && final(self)@ == m,
                Err(e) => r == Err::<(), Error>(e) && final(self)@ == old(self)@,
            },
    {
        let i = match self.find_asset(&id) {
            None => return Err(Error::Unknown),
            Some(i) => i,
        };
        proof {
            self.lemma_record(i as int);
        }
        if self.assets[i].details.is_frozen {
            return Err(Error::Frozen);
        }
        let approval = match find_allowance(&self.assets[i].allowances, owner, delegate) {
            None => return Err(Error::Unapproved),
            Some(k) => {
                proof {
                    lemma_index(self.assets@[i as int].allowances@, k as int);
                }
                self.assets[i].allowances[k].approval
            },
        };
        if approval.amount < amount {
            return Err(Error::Unapproved);
        }
        let f = TransferFlags { keep_alive: false, best_effort: false, burn_dust: false };
        self.do_transfer(id, owner, destination, amount, None, f)?;
        let remaining = approval.amount - amount;
        if remaining == 0 {
            self.drop_allowance(id, owner, delegate);
        } else {
            let i2 = match self.find_asset(&id) {
                Some(i2) => i2,
                None => {
                    proof {
                        assert(false);
                    }
                    0
                },
            };
            proof {
                self.lemma_record(i2 as int);
            }
            self.put_allowance_at(i2, owner, delegate, Approval { amount: remaining, ..approval });
        }
        self.events.push(
            Event::TransferredApproved { asset_id: id, owner, delegate, destination, amount },
        );
        Ok(())
    }

    /// `cancel_approval`: the caller withdraws what it approved to `delegate`.
    pub fn cancel_approval(&mut self, caller: AccountId, id: AssetId, delegate: AccountId) -> (r: Result<
        (),
        Error,
    >)
        requires
            old(self).wf(),
        ensures
            final(self).wf(),
            certificates_grow(old(self)@, final(self)@),
            match old(self)@.cancel_result(id, caller, delegate) {
                Ok(m) => r is Ok && final(self)@ == m,
                Err(e) => r == Err::<(), Error>(e) && final(self)@ == old(self)@,
            },
    {
        self.do_cancel(id, caller, delegate)
    }

    fn do_cancel(&mut self, id: AssetId, owner: AccountId, delegate: AccountId) -> (r: Result<(), Error>)
        requires
            old(self).wf(),
        ensures
            final(self).wf(),
            certificates_grow(old(self)@, final(self)@),
            match old(self)@.cancel_result(id, owner, delegate) {
                Ok(m) => r is Ok && final(self)@ == m,
                Err(e) => r == Err::<(), Error>(e) && final(self)@ == old(self)@,
            },
    {
        let i = match self.find_asset(&id) {
            None => return Err(Error::Unknown),
            Some(i) => i,
        };
        proof {
            self.lemma_record(i as int);
        }
        match find_allowance(&self.assets[i].allowances, owner, delegate) {
            None => return Err(Error::Unknown),
            Some(k) => {
                proof {
                    lemma_index(self.assets@[i as int].allowances@, k as int);
                }
            },
        }
        self.drop_allowance(id, owner, delegate);
        self.events.push(Event::ApprovalCancelled { asset_id: id, owner, delegate });
        Ok(())
    }

    /// `force_cancel_approval`: the privileged origin or the admin of `id`
    /// withdraws an approval of `owner` to `delegate`.
    pub fn force_cancel_approval(
        &mut self,
        origin: Origin,
        id: AssetId,
        owner: AccountId,
        delegate: AccountId,
    ) -> (r: Result<(), Error>)
        requires
            old(self).wf(),
        ensures
            final(self).wf(),
            certificates_grow(old(self)@, final(self)@),
            !old(self)@.assets.contains_key(id) ==> r == Err::<(), Error>(Error::Unknown)
                && final(self)@ == old(self)@,
            old(self)@.assets.contains_key(id) ==> match origin {
                Origin::Signed(x) if x != old(self)@.assets[id].details.admin => r == Err::<
                    (),
                    Error,
                >(Error::NoPermission) && final(self)@ == old(self)@,
                _ => match old(self)@.cancel_result(id, owner, delegate) {
                    Ok(m) => r is Ok && final(self)@ == m,
                    Err(e) => r == Err::<(), Error>(e) && final(self)@ == old(self)@,
                },
            },
    {
        let i = match self.find_asset(&id) {
            None => return Err(Error::Unknown),
            Some(i) => i,
        };
        proof {
            self.lemma_record(i as int);
        }
        match origin {
            Origin::Signed(x) => if x != self.assets[i].details.admin {
                return Err(Error::NoPermission);
            },
            Origin::Root => {},
        }
        self.do_cancel(id, owner, delegate)
    }

    /// `touch`: the caller opens an empty account in `id`, paying the account deposit.
    pub fn touch(&mut self, caller: AccountId, id: AssetId) -> (r: Result<(), Error>)
        requires
            old(self).wf(),
        ensures
            final(self).wf(),
            certificates_grow(old(self)@, final(self)@),
            match old(self)@.touch_result(caller, id) {
                Ok(m) => r is Ok && final(self)@ == m,
                Err(e) => r == Err::<(), Error>(e) && final(self)@ == old(self)@,
            },
    {
        let i = match self.find_asset(&id) {
            None => return Err(Error::Unknown),
            Some(i) => i,
        };
        proof {
            self.lemma_record(i as int);
        }
        if let Some(j) = find_holding(&self.assets[i].holdings, caller) {
            proof {
                lemma_index(self.assets@[i as int].holdings@, j as int);
            }
            return Err(Error::AlreadyExists);
        }
        if self.assets[i].details.accounts == u32::MAX {
            return Err(Error::Overflow);
        }
        let deposit = self.config.asset_account_deposit;
        self.native.reserve(caller, deposit)?;
        let ghost s0 = self.assets@;
        let mut rec = self.assets.remove(i);
        let ghost hs0 = rec.holdings@;
        let h = Holding {
            who: caller,
            account: AssetAccount {
                balance: 0,
                is_frozen: false,
                reason: ExistenceReason::DepositHeld(deposit),
            },
        };
        rec.holdings.push(h);
        rec.details.accounts = rec.details.accounts + 1;
        proof {
            lemma_push(hs0, h);
            lemma_sum_push(hs0, h, balance_weight());
            lemma_sum_push(hs0, h, sufficient_weight());
        }
        let ghost r1 = rec;
        self.assets.insert(i, rec);
        proof {
            assert(self.assets@ =~= s0.update(i as int, r1));
            lemma_update(s0, i as int, r1);
            assert(self@.assets =~= old(self)@.touch_result(caller, id)->Ok_0.assets);
        }
        Ok(())
    }

    /// `refund`: the caller closes its deposit-held account in `id` and gets
    /// the deposit back.
    pub fn refund(&mut self, caller: AccountId, id: AssetId, allow_burn: bool) -> (r: Result<(), Error>)
        requires
            old(self).wf(),
        ensures
            final(self).wf(),
            certificates_grow(old(self)@, final(self)@),
            match old(self)@.refund_result(caller, id, allow_burn) {
                Ok(m) => r is Ok && final(self)@ == m,
                Err(e) => r == Err::<(), Error>(e) && final(self)@ == old(self)@,
            },
    {
        let i = match self.find_asset(&id) {
            None => return Err(Error::NoDeposit),
            Some(i) => i,
        };
        proof {
            self.lemma_record(i as int);
        }
        let j = match find_holding(&self.assets[i].holdings, caller) {
            None => return Err(Error::NoDeposit),
            Some(j) => j,
        };
        proof {
            lemma_index(self.assets@[i as int].holdings@, j as int);
            self.lemma_balance_le_supply(i as int, j as int);
        }
        let acc = self.assets[i].holdings[j].account;
        let deposit = match acc.reason {
            ExistenceReason::DepositHeld(d) => d,
            _ => return Err(Error::NoDeposit),
        };
        if acc.balance != 0 && !allow_burn {
            return Err(Error::WouldBurn);
        }
        self.native.unreserve(caller, deposit);
        let ghost s0 = self.assets@;
        let mut rec = self.assets.remove(i);
        let ghost hs0 = rec.holdings@;
        rec.holdings.remove(j);
        rec.details.accounts = rec.details.accounts - 1;
        rec.details.supply = rec.details.supply - acc.balance;
        proof {
            lemma_remove(hs0, j as int);
            lemma_sum_remove(hs0, j as int, balance_weight());
            lemma_sum_remove(hs0, j as int, sufficient_weight());
        }
        let ghost r1 = rec;
        self.assets.insert(i, rec);
        self.died.push((id, caller));
        proof {
            assert(self.assets@ =~= s0.update(i as int, r1));
            lemma_update(s0, i as int, r1);
            assert(self@.assets =~= old(self)@.refund_result(caller, id, allow_burn)->Ok_0.assets);
        }
        Ok(())
    }

    fn do_freeze(&mut self, caller: AccountId, id: AssetId, who: AccountId, frozen: bool) -> (r: Result<
        (),
        Error,
    >)
        requires
            old(self).wf(),
        ensures
            final(self).wf(),
            certificates_grow(old(self)@, final(self)@),
            match old(self)@.freeze_result(caller, id, who, frozen) {
                Ok(m) => r is Ok && final(self)@ == m,
                Err(e) => r == Err::<(), Error>(e) && final(self)@ == old(self)@,
            },
    {
        let i = match self.find_asset(&id) {
            None => return Err(Error::Unknown),
            Some(i) => i,
        };
        proof {
            self.lemma_record(i as int);
        }
        let d = self.assets[i].details;
        let allowed = if frozen {
            d.freezer
        } else {
            d.admin
        };
        if caller != allowed {
            return Err(Error::NoPermission);
        }
        let j = match find_holding(&self.assets[i].holdings, who) {
            None => return Err(Error::NoAccount),
            Some(j) => j,
        };
        proof {
            lemma_index(self.assets@[i as int].holdings@, j as int);
        }
        self.set_account_frozen_at(i, j, frozen);
        if frozen {
            self.events.push(Event::Frozen { asset_id: id, who });
        } else {
            self.events.push(Event::Thawed { asset_id: id, who });
        }
        Ok(())
    }

    /// `freeze`: the freezer of `id` stops transfers out of the account of `who`.
    pub fn freeze(&mut self, caller: AccountId, id: AssetId, who: AccountId) -> (r: Result<(), Error>)
        requires
            old(self).wf(),
        ensures
            final(self).wf(),
            certificates_grow(old(self)@, final(self)@),
            match old(self)@.freeze_result(caller, id, who, true) {
                Ok(m) => r is Ok && final(self)@ == m,
                Err(e) => r == Err::<(), Error>(e) && final(self)@ == old(self)@,
            },
    {
        self.do_freeze(caller, id, who, true)
    }

    /// `thaw`: the admin of `id` lets the account of `who` transfer again.
    pub fn thaw(&mut self, caller: AccountId, id: AssetId, who: AccountId) -> (r: Result<(), Error>)
        requires
            old(self).wf(),
        ensures
            final(self).wf(),
            certificates_grow(old(self)@, final(self)@),
            match old(self)@.freeze_result(caller, id, who, false) {
                Ok(m) => r is Ok && final(self)@ == m,
                Err(e) => r == Err::<(), Error>(e) && final(self)@ == old(self)@,
            },
    {
        self.do_freeze(caller, id, who, false)
    }

    fn do_freeze_asset(&mut self, caller: AccountId, id: AssetId, frozen: bool) -> (r: Result<(), Error>)
        requires
            old(self).wf(),
        ensures
            final(self).wf(),
            certificates_grow(old(self)@, final(self)@),
            match old(self)@.freeze_asset_result(caller, id, frozen) {
                Ok(m) => r is Ok && final(self)@ == m,
                Err(e) => r == Err::<(), Error>(e) && final(self)@ == old(self)@,
            },
    {
        let i = match self.find_asset(&id) {
            None => return Err(Error::Unknown),
            Some(i) => i,
        };
        proof {
            self.lemma_record(i as int);
        }
        let d = self.assets[i].details;
        let allowed = if frozen {
            d.freezer
        } else {
            d.admin
        };
        if caller != allowed {
            return Err(Error::NoPermission);
        }
        self.set_details_at(i, AssetDetails { is_frozen: frozen, ..d });
        if frozen {
            self.events.push(Event::AssetFrozen { asset_id: id });
        } else {
            self.events.push(Event::AssetThawed { asset_id: id });
        }
        Ok(())
    }

    /// `freeze_asset`: the freezer of `id` stops permissionless transfers of the class.
    pub fn freeze_asset(&mut self, caller: AccountId, id: AssetId) -> (r: Result<(), Error>)
        requires
            old(self).wf(),
        ensures
            final(self).wf(),
            certificates_grow(old(self)@, final(self)@),
            match old(self)@.freeze_asset_result(caller, id, true) {
                Ok(m) => r is Ok && final(self)@ == m,
                Err(e) => r == Err::<(), Error>(e) && final(self)@ == old(self)@,
            },
    {
        self.do_freeze_asset(caller, id, true)
    }

    /// `thaw_asset`: the admin of `id` lets the class move again.
    pub fn thaw_asset(&mut self, caller: AccountId, id: AssetId) -> (r: Result<(), Error>)
        requires
            old(self).wf(),
        ensures
            final(self).wf(),
            certificates_grow(old(self)@, final(self)@),
            match old(self)@.freeze_asset_result(caller, id, false) {
                Ok(m) => r is Ok && final(self)@ == m,
                Err(e) => r == Err::<(), Error>(e) && final(self)@ == old(self)@,
            },
    {
        self.do_freeze_asset(caller, id, false)
    }

    /// `transfer_ownership`: the owner of `id` hands it, and its deposits, to `owner`.
    pub fn transfer_ownership(&mut self, caller: AccountId, id: AssetId, owner: AccountId) -> (r: Result<
        (),
        Error,
    >)
        requires
            old(self).wf(),
        ensures
            final(self).wf(),
            certificates_grow(old(self)@, final(self)@),
            match old(self)@.transfer_ownership_result(caller, id, owner) {
                Ok(m) => r is Ok && final(self)@ == m,
                Err(e) => r == Err::<(), Error>(e) && final(self)@ == old(self)@,
            },
    {
        let i = match self.find_asset(&id) {
            None => return Err(Error::Unknown),
            Some(i) => i,
        };
        proof {
            self.lemma_record(i as int);
        }
        let d = self.assets[i].details;
        if caller != d.owner {
            return Err(Error::NoPermission);
        }
        if d.owner == owner {
            return Ok(());
        }
        let metadata_deposit = match &self.assets[i].metadata {
            Some(m) => m.deposit,
            None => 0,
        };
        let deposit = d.deposit.saturating_add(metadata_deposit);
        self.native.repatriate_reserved(d.owner, owner, deposit);
        self.set_details_at(i, AssetDetails { owner, ..d });
        self.events.push(Event::OwnerChanged { asset_id: id, owner });
        Ok(())
    }

    /// Replaces the metadata of the record at `i`.
    fn set_metadata_at(&mut self, i: usize, m: Option<AssetMetadata>)
        requires
            old(self).wf(),
            i < old(self).assets@.len(),
        ensures
            final(self).wf(),
            certificates_grow(old(self)@, final(self)@),
            final(self)@ == old(self)@.with_metadata(old(self).assets@[i as int].id, metadata_view(m)),
    {
        let ghost s0 = self.assets@;
        proof {
            self.lemma_record(i as int);
        }
        let mut rec = self.assets.remove(i);
        rec.metadata = m;
        let ghost r1 = rec;
        self.assets.insert(i, rec);
        proof {
            assert(self.assets@ =~= s0.update(i as int, r1));
            lemma_update(s0, i as int, r1);
            assert(self@.assets =~= old(self)@.with_metadata(s0[i as int].id, metadata_view(m)).assets);
        }
    }

    /// `set_custodian`: the privileged origin names the custodian.
    pub fn set_custodian(&mut self, origin: Origin, custodian: AccountId) -> (r: Result<(), Error>)
        requires
            old(self).wf(),
        ensures
            final(self).wf(),
            certificates_grow(old(self)@, final(self)@),
            match old(self)@.set_custodian_result(origin, custodian) {
                Ok(m) => r is Ok && final(self)@ == m,
                Err(e) => r == Err::<(), Error>(e) && final(self)@ == old(self)@,
            },
    {
        match origin {
            Origin::Root => {},
            Origin::Signed(_) => return Err(Error::BadOrigin),
        }
        self.custodian = Some(custodian);
        self.events.push(Event::CustodianSet { custodian });
        Ok(())
    }

    /// `force_create`: the privileged origin makes the class `id`, run by `owner`.
    pub fn force_create(
        &mut self,
        origin: Origin,
        id: AssetId,
        owner: AccountId,
        is_sufficient: bool,
        min_balance: Balance,
    ) -> (r: Result<(), Error>)
        requires
            old(self).wf(),
        ensures
            final(self).wf(),
            certificates_grow(old(self)@, final(self)@),
            match old(self)@.force_create_result(origin, id, owner, is_sufficient, min_balance) {
                Ok(m) => r is Ok && final(self)@ == m,
                Err(e) => r == Err::<(), Error>(e) && final(self)@ == old(self)@,
            },
    {
        match origin {
            Origin::Root => {},
            Origin::Signed(_) => return Err(Error::BadOrigin),
        }
        if let Some(i) = self.find_asset(&id) {
            proof {
                self.lemma_record(i as int);
            }
            return Err(Error::InUse);
        }
        if min_balance == 0 {
            return Err(Error::MinBalanceZero);
        }
        let rec = AssetRecord {
            id,
            details: AssetDetails {
                owner,
                issuer: owner,
                admin: owner,
                freezer: owner,
                supply: 0,
                deposit: 0,
                min_balance,
                is_sufficient,
                accounts: 0,
                sufficients: 0,
                approvals: 0,
                is_frozen: false,
            },
            metadata: None,
            holdings: Vec::new(),
            allowances: Vec::new(),
        };
        proof {
            assert(as_map(rec.holdings@) =~= Map::<AccountId, AssetAccount>::empty());
            assert(as_map(rec.allowances@) =~= Map::<(AccountId, AccountId), Approval>::empty());
        }
        self.push_record(rec);
        self.events.push(Event::ForceCreated { asset_id: id, owner });
        Ok(())
    }

    /// Adds a fresh, consistent record.
    fn push_record(&mut self, rec: AssetRecord)
        requires
            old(self).wf(),
            !old(self)@.assets.contains_key(rec.id),
            record_wf(rec),
            rec.holdings@.len() == 0,
            rec.allowances@.len() == 0,
        ensures
            final(self).wf(),
            certificates_grow(old(self)@, final(self)@),
            final(self)@ == old(self)@.with_asset(rec.id, rec.val()),
    {
        let ghost s0 = self.assets@;
        proof {
            assert(as_map(rec.holdings@) =~= Map::<AccountId, AssetAccount>::empty());
            assert(as_map(rec.allowances@) =~= Map::<(AccountId, AccountId), Approval>::empty());
        }
        self.assets.push(rec);
        proof {
            lemma_push(s0, rec);
            assert(self@.assets =~= old(self)@.with_asset(rec.id, rec.val()).assets);
        }
    }

    /// `force_asset_status`: the privileged origin replaces the roles and
    /// knobs of `id`.
    pub fn force_asset_status(
        &mut self,
        origin: Origin,
        id: AssetId,
        owner: AccountId,
        issuer: AccountId,
        admin: AccountId,
        freezer: AccountId,
        min_balance: Balance,
        is_sufficient: bool,
        is_frozen: bool,
    ) -> (r: Result<(), Error>)
        requires
            old(self).wf(),
        ensures
            final(self).wf(),
            certificates_grow(old(self)@, final(self)@),
            match old(self)@.force_asset_status_result(
                origin,
                id,
                owner,
                issuer,
                admin,
                freezer,
                min_balance,
                is_sufficient,
                is_frozen,
            ) {
                Ok(m) => r is Ok && final(self)@ == m,
                Err(e) => r == Err::<(), Error>(e) && final(self)@ == old(self)@,
            },
    {
        match origin {
            Origin::Root => {},
            Origin::Signed(_) => return Err(Error::BadOrigin),
        }
        let i = match self.find_asset(&id) {
            None => return Err(Error::Unknown),
            Some(i) => i,
        };
        proof {
            self.lemma_record(i as int);
        }
        if min_balance == 0 {
            return Err(Error::MinBalanceZero);
        }
        let d = self.assets[i].details;
        self.set_details_at(
            i,
            AssetDetails { owner, issuer, admin, freezer, min_balance, is_sufficient, is_frozen, ..d },
        );
        self.events.push(Event::AssetStatusChanged { asset_id: id });
        Ok(())
    }

    /// `force_clear_metadata`: the privileged origin removes the metadata of
    /// `id` and returns its deposit to the owner.
    pub fn force_clear_metadata(&mut self, origin: Origin, id: AssetId) -> (r: Result<(), Error>)
        requires
            old(self).wf(),
        ensures
            final(self).wf(),
            certificates_grow(old(self)@, final(self)@),
            match old(self)@.force_clear_metadata_result(origin, id) {
                Ok(m) => r is Ok && final(self)@ == m,
                Err(e) => r == Err::<(), Error>(e) && final(self)@ == old(self)@,
            },
    {
        match origin {
            Origin::Root => {},
            Origin::Signed(_) => return Err(Error::BadOrigin),
        }
        let i = match self.find_asset(&id) {
            None => return Err(Error::Unknown),
            Some(i) => i,
        };
        proof {
            self.lemma_record(i as int);
        }
        let deposit = match &self.assets[i].metadata {
            None => return Err(Error::Unknown),
            Some(m) => m.deposit,
        };
        let owner = self.assets[i].details.owner;
        self.set_metadata_at(i, None);
        self.native.unreserve(owner, deposit);
        self.events.push(Event::MetadataCleared { asset_id: id });
        Ok(())
    }

    /// `force_set_metadata`: the privileged origin writes the metadata of
    /// `id`, keeping any deposit already held for it.
    pub fn force_set_metadata(
        &mut self,
        origin: Origin,
        id: AssetId,
        name: Vec<u8>,
        symbol: Vec<u8>,
        url: Vec<u8>,
        data_ipfs: Vec<u8>,
        decimals: u8,
        is_frozen: bool,
    ) -> (r: Result<(), Error>)
        requires
            old(self).wf(),
        ensures
            final(self).wf(),
            certificates_grow(old(self)@, final(self)@),
            match old(self)@.force_set_metadata_error(
                origin,
                id,
                seq![name@.len(), symbol@.len(), url@.len(), data_ipfs@.len()],
            ) {
                Some(e) => r == Err::<(), Error>(e) && final(self)@ == old(self)@,
                None => r is Ok && with_new_events(
                    old(self)@,
                    final(self)@,
                    old(self)@.with_metadata(
                        id,
                        Some(
                            MetadataModel {
                                deposit: old(self)@.metadata_deposit(id),
                                name: name@,
                                symbol: symbol@,
                                url: url@,
                                data_ipfs: data_ipfs@,
                                decimals,
                                is_frozen,
                            },
                        ),
                    ),
                    2,
                ) && is_metadata_set(
                    final(self)@.events[old(self)@.events.len() as int],
                    id,
                    name@,
                    symbol@,
                    decimals,
                    is_frozen,
                ) && is_metadata_updated(
                    final(self)@.events[old(self)@.events.len() + 1int],
                    id,
                    url@,
                    data_ipfs@,
                ),
            },
    {
        let ghost lens = seq![name@.len(), symbol@.len(), url@.len(), data_ipfs@.len()];
        match origin {
            Origin::Root => {},
            Origin::Signed(_) => return Err(Error::BadOrigin),
        }
        let limit = self.config.string_limit as usize;
        if name.len() > limit || symbol.len() > limit || url.len() > limit || data_ipfs.len() > limit {
            proof {
                if name@.len() > limit {
                    assert(lens[0] > limit);
                } else if symbol@.len() > limit {
                    assert(lens[1] > limit);
                } else if url@.len() > limit {
                    assert(lens[2] > limit);
                } else {
                    assert(lens[3] > limit);
                }
            }
            return Err(Error::BadMetadata);
        }
        let i = match self.find_asset(&id) {
            None => return Err(Error::Unknown),
            Some(i) => i,
        };
        proof {
            self.lemma_record(i as int);
        }
        let deposit = match &self.assets[i].metadata {
            None => 0,
            Some(m) => m.deposit,
        };
        let ev_set = Event::MetadataSet {
            asset_id: id,
            name: name.clone(),
            symbol: symbol.clone(),
            decimals,
            is_frozen,
        };
        let ev_updated = Event::MetadataUpdated { asset_id: id, url: url.clone(), data_ipfs: data_ipfs.clone() };
        let m = AssetMetadata { deposit, name, symbol, url, data_ipfs, decimals, is_frozen };
        self.set_metadata_at(i, Some(m));
        let ghost mid = self@;
        self.events.push(ev_set);
        self.events.push(ev_updated);
        proof {
            assert(self@.events.take(old(self)@.events.len() as int) =~= old(self)@.events);
            assert(self@ == LedgerModel { events: self@.events, ..mid });
        }
        Ok(())
    }

    /// `set_project_data`: the owner of `id`, or the custodian, sets its url
    /// and data link until the class is first minted.
    pub fn set_project_data(&mut self, caller: AccountId, id: AssetId, url: Vec<u8>, data_ipfs: Vec<u8>) -> (r:
        Result<(), Error>)
        requires
            old(self).wf(),
        ensures
            final(self).wf(),
            certificates_grow(old(self)@, final(self)@),
            match old(self)@.project_data_error(caller, id, url@.len(), data_ipfs@.len()) {
                Some(e) => r == Err::<(), Error>(e) && final(self)@ == old(self)@,
                None => r is Ok && with_new_events(
                    old(self)@,
                    final(self)@,
                    old(self)@.with_metadata(
                        id,
                        Some(
                            MetadataModel {
                                url: url@,
                                data_ipfs: data_ipfs@,
                                ..old(self)@.assets[id].metadata->Some_0
                            },
                        ),
                    ),
                    1,
                ) && is_metadata_updated(
                    final(self)@.events[old(self)@.events.len() as int],
                    id,
                    url@,
                    data_ipfs@,
                ),
            },
    {
        let limit = self.config.string_limit as usize;
        if url.len() > limit || data_ipfs.len() > limit {
            return Err(Error::BadMetadata);
        }
        let i = match self.find_asset(&id) {
            None => return Err(Error::Unknown),
            Some(i) => i,
        };
        proof {
            self.lemma_record(i as int);
        }
        let d = self.assets[i].details;
        let is_custodian = match self.custodian {
            Some(c) => c == caller,
            None => false,
        };
        if caller != d.owner && !is_custodian {
            return Err(Error::NoPermission);
        }
        if d.supply > 0 {
            return Err(Error::CannotChangeAfterMint);
        }
        let old_m = match &self.assets[i].metadata {
            None => return Err(Error::NoMetadata),
            Some(m) => clone_metadata(m),
        };
        let ev = Event::MetadataUpdated { asset_id: id, url: url.clone(), data_ipfs: data_ipfs.clone() };
        let m = AssetMetadata { url, data_ipfs, ..old_m };
        self.set_metadata_at(i, Some(m));
        let ghost mid = self@;
        self.events.push(ev);
        proof {
            assert(self@.events.take(old(self)@.events.len() as int) =~= old(self)@.events);
            assert(self@ == LedgerModel { events: self@.events, ..mid });
        }
        Ok(())
    }

    fn metadata_deposit_for(&self, name_len: usize, symbol_len: usize) -> (r: Balance)
        requires
            name_len <= u32::MAX,
            symbol_len <= u32::MAX,
        ensures
            r == self@.metadata_deposit_for(name_len as nat, symbol_len as nat),
    {
        let bytes = (name_len as u64) + (symbol_len as u64);
        let per = match self.config.metadata_deposit_per_byte.checked_mul(bytes) {
            Some(p) => p,
            None => u64::MAX,
        };
        per.saturating_add(self.config.metadata_deposit_base)
    }

    /// `create`: the caller makes a new class, run by the custodian, with
    /// metadata `name` and `symbol` and nine decimals, and reserves the class
    /// and metadata deposits. `seed` is the host's random value for the
    /// current nonce; the identifier is derived from it.
    pub fn create(&mut self, caller: AccountId, seed: [u8; 32], name: Vec<u8>, symbol: Vec<u8>) -> (r:
        Result<AssetId, Error>)
        requires
            old(self).wf(),
        ensures
            final(self).wf(),
            certificates_grow(old(self)@, final(self)@),
            exists|id: AssetId|
                #![trigger old(self)@.create_error(caller, id, name@.len(), symbol@.len())]
                id@ == derived_id(old(self)@.nonce, seed@, caller) && match old(self)@.create_error(
                    caller,
                    id,
                    name@.len(),
                    symbol@.len(),
                ) {
                    Some(e) => r == Err::<AssetId, Error>(e) && final(self)@ == old(self)@,
                    None => r == Ok::<AssetId, Error>(id) && with_new_events(
                        old(self)@,
                        final(self)@,
                        old(self)@.create_state(caller, id, name@, symbol@),
                        2,
                    ) && final(self)@.events[old(self)@.events.len() as int] == (Event::Created {
                        asset_id: id,
                        creator: caller,
                    }) && is_metadata_set(
                        final(self)@.events[old(self)@.events.len() + 1int],
                        id,
                        name@,
                        symbol@,
                        9,
                        false,
                    ),
                },
    {
        let id = derive_asset_id(self.nonce, &seed, caller);
        let ghost err = old(self)@.create_error(caller, id, name@.len(), symbol@.len());
        let custodian = match self.custodian {
            None => {
                assert(err == Some(Error::NoCustodian));
                return Err(Error::NoCustodian);
            },
            Some(c) => c,
        };
        if self.nonce == u64::MAX {
            assert(err == Some(Error::Overflow));
            return Err(Error::Overflow);
        }
        if let Some(i) = self.find_asset(&id) {
            proof {
                self.lemma_record(i as int);
            }
            assert(err == Some(Error::ErrorCreatingAssetId));
            return Err(Error::ErrorCreatingAssetId);
        }
        let deposit = self.config.asset_deposit;
        let acct = self.native.get(caller);
        if deposit > 0 {
            if acct.free < deposit {
                assert(err == Some(Error::InsufficientBalance));
                return Err(Error::InsufficientBalance);
            }
            if acct.reserved > u64::MAX - deposit {
                assert(err == Some(Error::Overflow));
                return Err(Error::Overflow);
            }
        }
        let (free1, reserved1) = if deposit > 0 {
            (acct.free - deposit, acct.reserved + deposit)
        } else {
            (acct.free, acct.reserved)
        };
        let limit = self.config.string_limit as usize;
        if name.len() > limit || symbol.len() > limit {
            assert(err == Some(Error::BadMetadata));
            return Err(Error::BadMetadata);
        }
        let md = self.metadata_deposit_for(name.len(), symbol.len());
        if md > 0 {
            if free1 < md {
                assert(err == Some(Error::InsufficientBalance));
                return Err(Error::InsufficientBalance);
            }
            if reserved1 > u64::MAX - md {
                assert(err == Some(Error::Overflow));
                return Err(Error::Overflow);
            }
        }
        assert(err is None);
        let r1 = self.native.reserve(caller, deposit);
        let r2 = self.native.reserve(caller, md);
        self.nonce = self.nonce + 1;
        self.created.insert(caller, id);
        let ev_set = Event::MetadataSet {
            asset_id: id,
            name: name.clone(),
            symbol: symbol.clone(),
            decimals: 9,
            is_frozen: false,
        };
        let rec = AssetRecord {
            id,
            details: AssetDetails {
                owner: caller,
                issuer: custodian,
                admin: custodian,
                freezer: custodian,
                supply: 0,
                deposit,
                min_balance: 1,
                is_sufficient: false,
                accounts: 0,
                sufficients: 0,
                approvals: 0,
                is_frozen: false,
            },
            metadata: Some(
                AssetMetadata {
                    deposit: md,
                    name,
                    symbol,
                    url: Vec::new(),
                    data_ipfs: Vec::new(),
                    decimals: 9,
                    is_frozen: false,
                },
            ),
            holdings: Vec::new(),
            allowances: Vec::new(),
        };
        proof {
            assert(as_map(rec.holdings@) =~= Map::<AccountId, AssetAccount>::empty());
            assert(as_map(rec.allowances@) =~= Map::<(AccountId, AccountId), Approval>::empty());
            assert(rec.metadata->Some_0.url@ =~= Seq::<u8>::empty());
            assert(rec.metadata->Some_0.data_ipfs@ =~= Seq::<u8>::empty());
        }
        self.push_record(rec);
        let ghost mid = self@;
        self.events.push(Event::Created { asset_id: id, creator: caller });
        self.events.push(ev_set);
        proof {
            assert(self@.events.take(old(self)@.events.len() as int) =~= old(self)@.events);
            assert(self@ == LedgerModel { events: self@.events, ..mid });
            assert(mid == LedgerModel { events: old(self)@.events, ..old(self)@.create_state(caller, id, name@, symbol@) });
        }
        Ok(id)
    }

    /// `destroy`: the privileged origin, or the owner of `id`, removes the
    /// class with every account, approval and metadata under it. The
    /// accounts are reaped whatever their reason: a deposit held for one
    /// stays reserved. The owner gets the class and metadata deposits back,
    /// and each approver the approval deposits.
    pub fn destroy(&mut self, origin: Origin, id: AssetId, witness: DestroyWitness) -> (r: Result<
        (),
        Error,
    >)
        requires
            old(self).wf(),
        ensures
            final(self).wf(),
            certificates_grow(old(self)@, final(self)@),
            match old(self)@.destroy_error(origin, id, witness) {
                Some(e) => r == Err::<(), Error>(e) && final(self)@ == old(self)@,
                None => r is Ok && !final(self)@.assets.contains_key(id) && exists|hs: Seq<Holding>, al: Seq<Allowance>|
                    #![trigger old(self)@.destroy_state(id, hs, al)]
                    unique(hs) && as_map(hs) == old(self)@.assets[id].accounts && unique(al) && as_map(al)
                        == old(self)@.assets[id].approvals && final(self)@ == old(self)@.destroy_state(
                        id,
                        hs,
                        al,
                    ),
            },
    {
        let i = match self.find_asset(&id) {
            None => return Err(Error::Unknown),
            Some(i) => i,
        };
        proof {
            self.lemma_record(i as int);
        }
        let d = self.assets[i].details;
        match origin {
            Origin::Signed(x) => if x != d.owner {
                return Err(Error::NoPermission);
            },
            Origin::Root => {},
        }
        if d.accounts > witness.accounts || d.sufficients > witness.sufficients || d.approvals
            > witness.approvals {
            return Err(Error::BadWitness);
        }
        let ghost s0 = self.assets@;
        let ghost n0 = self.native@;
        let ghost d0 = self.died@;
        let rec = self.assets.remove(i);
        proof {
            lemma_remove(s0, i as int);
            assert forall|k: int| 0 <= k < self.assets@.len() implies record_wf(#[trigger] self.assets@[k]) by {
                if k < i {
                    assert(self.assets@[k] == s0[k]);
                } else {
                    assert(self.assets@[k] == s0[k + 1]);
                }
            }
        }
        let ghost hs = rec.holdings@;
        let ghost al = rec.allowances@;
        release_holdings_exec(&mut self.native, &mut self.died, id, &rec.holdings);
        let metadata_deposit = match &rec.metadata {
            Some(m) => m.deposit,
            None => 0,
        };
        self.native.unreserve(d.owner, d.deposit.saturating_add(metadata_deposit));
        release_approvals_exec(&mut self.native, &rec.allowances);
        self.events.push(Event::Destroyed { asset_id: id });
        proof {
            assert(self@.assets == old(self)@.assets.remove(id));
            assert(self@ == old(self)@.destroy_state(id, hs, al));
        }
        Ok(())
    }

    /// The details of `id`, where the class exists.
    pub fn asset_details(&self, id: AssetId) -> (r: Option<AssetDetails>)
        requires
            self.wf(),
        ensures
            r == (if self@.assets.contains_key(id) {
                Some(self@.assets[id].details)
            } else {
                None::<AssetDetails>
            }),
    {
        match self.find_asset(&id) {
            None => None,
            Some(i) => {
                proof {
                    self.lemma_record(i as int);
                }
                Some(self.assets[i].details)
            },
        }
    }

    pub fn asset_exists(&self, id: AssetId) -> (r: bool)
        requires
            self.wf(),
        ensures
            r == self@.assets.contains_key(id),
    {
        match self.find_asset(&id) {
            None => false,
            Some(i) => {
                proof {
                    self.lemma_record(i as int);
                }
                true
            },
        }
    }

    /// The supply of `id`; zero for an unknown class.
    pub fn total_supply(&self, id: AssetId) -> (r: Balance)
        requires
            self.wf(),
        ensures
            r == (if self@.assets.contains_key(id) {
                self@.assets[id].details.supply
            } else {
                0
            }),
    {
        match self.asset_details(id) {
            None => 0,
            Some(d) => d.supply,
        }
    }

    /// The supply of `id`; zero for an unknown class.
    pub fn total_issuance(&self, id: AssetId) -> (r: Balance)
        requires
            self.wf(),
        ensures
            r == (if self@.assets.contains_key(id) {
                self@.assets[id].details.supply
            } else {
                0
            }),
    {
        self.total_supply(id)
    }

    /// The minimum balance of `id`; zero for an unknown class.
    pub fn minimum_balance(&self, id: AssetId) -> (r: Balance)
        requires
            self.wf(),
        ensures
            r == (if self@.assets.contains_key(id) {
                self@.assets[id].details.min_balance
            } else {
                0
            }),
    {
        match self.asset_details(id) {
            None => 0,
            Some(d) => d.min_balance,
        }
    }

    /// The account of `who` in `id`, where there is one.
    pub fn account(&self, id: AssetId, who: AccountId) -> (r: Option<AssetAccount>)
        requires
            self.wf(),
        ensures
            r == (if self@.assets.contains_key(id) && self@.assets[id].accounts.contains_key(who) {
                Some(self@.assets[id].accounts[who])
            } else {
                None::<AssetAccount>
            }),
    {
        match self.find_asset(&id) {
            None => None,
            Some(i) => {
                proof {
                    self.lemma_record(i as int);
                }
                match find_holding(&self.assets[i].holdings, who) {
                    None => None,
                    Some(j) => {
                        proof {
                            lemma_index(self.assets@[i as int].holdings@, j as int);
                        }
                        Some(self.assets[i].holdings[j].account)
                    },
                }
            },
        }
    }

    /// The balance of `who` in `id`, where it has an account.
    pub fn maybe_balance(&self, id: AssetId, who: AccountId) -> (r: Option<Balance>)
        requires
            self.wf(),
        ensures
            r == (if self@.assets.contains_key(id) && self@.assets[id].accounts.contains_key(who) {
                Some(self@.assets[id].accounts[who].balance)
            } else {
                None::<Balance>
            }),
    {
        match self.account(id, who) {
            None => None,
            Some(a) => Some(a.balance),
        }
    }

    /// How many accounts `id` has; zero for an unknown class.
    pub fn account_count(&self, id: AssetId) -> (r: u32)
        requires
            self.wf(),
        ensures
            r == (if self@.assets.contains_key(id) {
                self@.assets[id].details.accounts
            } else {
                0
            }),
    {
        match self.asset_details(id) {
            None => 0,
            Some(d) => d.accounts,
        }
    }

    /// How many approvals `id` has; zero for an unknown class.
    pub fn approval_count(&self, id: AssetId) -> (r: u32)
        requires
            self.wf(),
        ensures
            r == (if self@.assets.contains_key(id) {
                self@.assets[id].details.approvals
            } else {
                0
            }),
    {
        match self.asset_details(id) {
            None => 0,
            Some(d) => d.approvals,
        }
    }

    /// The metadata of `id`, where it has some.
    pub fn metadata(&self, id: AssetId) -> (r: Option<AssetMetadata>)
        requires
            self.wf(),
        ensures
            metadata_view(r) == (if self@.assets.contains_key(id) {
                self@.assets[id].metadata
            } else {
                None::<MetadataModel>
            }),
    {
        match self.find_asset(&id) {
            None => None,
            Some(i) => {
                proof {
                    self.lemma_record(i as int);
                }
                match &self.assets[i].metadata {
                    None => None,
                    Some(m) => Some(clone_metadata(m)),
                }
            },
        }
    }

    /// The name of `id`; empty without metadata.
    pub fn name(&self, id: AssetId) -> (r: Vec<u8>)
        requires
            self.wf(),
        ensures
            r@ == (if self@.assets.contains_key(id) && self@.assets[id].metadata is Some {
                self@.assets[id].metadata->Some_0.name
            } else {
                Seq::<u8>::empty()
            }),
    {
        match self.metadata(id) {
            None => Vec::new(),
            Some(m) => m.name,
        }
    }

    /// The symbol of `id`; empty without metadata.
    pub fn symbol(&self, id: AssetId) -> (r: Vec<u8>)
        requires
            self.wf(),
        ensures
            r@ == (if self@.assets.contains_key(id) && self@.assets[id].metadata is Some {
                self@.assets[id].metadata->Some_0.symbol
            } else {
                Seq::<u8>::empty()
            }),
    {
        match self.metadata(id) {
            None => Vec::new(),
            Some(m) => m.symbol,
        }
    }

    /// The decimals of `id`; zero without metadata.
    pub fn decimals(&self, id: AssetId) -> (r: u8)
        requires
            self.wf(),
        ensures
            r == (if self@.assets.contains_key(id) && self@.assets[id].metadata is Some {
                self@.assets[id].metadata->Some_0.decimals
            } else {
                0
            }),
    {
        match self.metadata(id) {
            None => 0,
            Some(m) => m.decimals,
        }
    }

    /// What `delegate` may still move of `owner`'s holding in `id`.
    pub fn allowance(&self, id: AssetId, owner: AccountId, delegate: AccountId) -> (r: Balance)
        requires
            self.wf(),
        ensures
            r == (if self@.assets.contains_key(id) && self@.assets[id].approvals.contains_key(
                (owner, delegate),
            ) {
                self@.assets[id].approvals[(owner, delegate)].amount
            } else {
                0
            }),
    {
        match self.find_asset(&id) {
            None => 0,
            Some(i) => {
                proof {
                    self.lemma_record(i as int);
                }
                match find_allowance(&self.assets[i].allowances, owner, delegate) {
                    None => 0,
                    Some(k) => {
                        proof {
                            lemma_index(self.assets@[i as int].allowances@, k as int);
                        }
                        self.assets[i].allowances[k].approval.amount
                    },
                }
            },
        }
    }

    pub fn get_custodian(&self) -> (r: Option<AccountId>)
        ensures
            r == self@.custodian,
    {
        self.custodian
    }

    /// The nonce the next created identifier is derived from.
    pub fn get_last_id(&self) -> (r: u64)
        ensures
            r == self@.nonce,
    {
        self.nonce
    }

    /// The identifier of the class that `who` created last.
    pub fn get_current_asset_id(&self, who: AccountId) -> (r: Option<AssetId>)
        ensures
            r == (if self@.created.contains_key(who) {
                Some(self@.created[who])
            } else {
                None::<AssetId>
            }),
    {
        match self.created.get(&who) {
            None => None,
            Some(id) => Some(*id),
        }
    }

    /// The events reported so far, oldest first.
    pub fn events(&self) -> (r: &Vec<Event>)
        ensures
            r@ == self@.events,
    {
        &self.events
    }

    /// The deaths of accounts recorded so far, oldest first.
    pub fn hooks(&self) -> (r: &Vec<(AssetId, AccountId)>)
        ensures
            r@ == self@.died,
    {
        &self.died
    }

    /// Hands out the recorded deaths and forgets them.
    pub fn take_hooks(&mut self) -> (r: Vec<(AssetId, AccountId)>)
        requires
            old(self).wf(),
        ensures
            final(self).wf(),
            certificates_grow(old(self)@, final(self)@),
            r@ == old(self)@.died,
            final(self)@ == (LedgerModel { died: Seq::empty(), ..old(self)@ }),
    {
        let mut out: Vec<(AssetId, AccountId)> = Vec::new();
        std::mem::swap(&mut out, &mut self.died);
        out
    }

    /// The native account of `who`.
    pub fn native_account(&self, who: AccountId) -> (r: NativeAccount)
        ensures
            r == native_of(self@.native, who),
    {
        self.native.get(who)
    }

    pub fn free_balance(&self, who: AccountId) -> (r: Balance)
        ensures
            r == native_of(self@.native, who).free,
    {
        self.native.get(who).free
    }

    pub fn reserved_balance(&self, who: AccountId) -> (r: Balance)
        ensures
            r == native_of(self@.native, who).reserved,
    {
        self.native.get(who).reserved
    }

    pub fn consumers(&self, who: AccountId) -> (r: u32)
        ensures
            r == native_of(self@.native, who).consumers,
    {
        self.native.get(who).consumers
    }

    /// Sets the free native balance of `who`.
    pub fn make_free_balance_be(&mut self, who: AccountId, free: Balance)
        requires
            old(self).wf(),
        ensures
            final(self).wf(),
            certificates_grow(old(self)@, final(self)@),
            final(self)@ == old(self)@.with_native(
                old(self)@.native.insert(who, NativeAccount { free, ..native_of(old(self)@.native, who) }),
            ),
    {
        self.native.set_free(who, free);
    }

    /// The frozen part of the balance of `who` in `id`, where one is set.
    pub fn frozen_balance(&self, id: AssetId, who: AccountId) -> (r: Option<Balance>)
        requires
            self.wf(),
        ensures
            r == self@.frozen_of(id, who),
    {
        self.find_frozen(&id, who)
    }

    /// Keeps `amount` of the balance of `who` in `id` frozen.
    pub fn set_frozen_balance(&mut self, id: AssetId, who: AccountId, amount: Balance)
        requires
            old(self).wf(),
        ensures
            final(self).wf(),
            certificates_grow(old(self)@, final(self)@),
            final(self)@ == (LedgerModel {
                frozen: old(self)@.frozen.insert((id, who), amount),
                ..old(self)@
            }),
    {
        let ghost s0 = self.frozen@;
        let e = FrozenEntry { id, who, amount };
        match self.find_frozen_index(&id, who) {
            Some(k) => {
                self.frozen.set(k, e);
                proof {
                    lemma_update(s0, k as int, e);
                }
            },
            None => {
                self.frozen.push(e);
                proof {
                    lemma_push(s0, e);
                }
            },
        }
        proof {
            assert(self@.frozen =~= old(self)@.frozen.insert((id, who), amount));
        }
    }

    /// Lifts the frozen part of the balance of `who` in `id`.
    pub fn clear_frozen_balance(&mut self, id: AssetId, who: AccountId)
        requires
            old(self).wf(),
        ensures
            final(self).wf(),
            certificates_grow(old(self)@, final(self)@),
            final(self)@ == (LedgerModel { frozen: old(self)@.frozen.remove((id, who)), ..old(self)@ }),
    {
        let ghost s0 = self.frozen@;
        match self.find_frozen_index(&id, who) {
            Some(k) => {
                proof {
                    lemma_index(s0, k as int);
                }
                self.frozen.remove(k);
                proof {
                    lemma_remove(s0, k as int);
                }
            },
            None => {},
        }
        proof {
            assert(self@.frozen =~= old(self)@.frozen.remove((id, who)));
        }
    }

    fn find_frozen_index(&self, id: &AssetId, who: AccountId) -> (r: Option<usize>)
        ensures
            match r {
                Some(k) => k < self.frozen@.len() && self.frozen@[k as int].key() == (*id, who),
                None => !has_key(self.frozen@, (*id, who)),
            },
    {
        let mut k: usize = 0;
        while k < self.frozen.len()
            invariant
                k <= self.frozen@.len(),
                forall|x: int| 0 <= x < k ==> #[trigger] self.frozen@[x].key() != (*id, who),
            decreases self.frozen@.len() - k,
        {
            if self.frozen[k].who == who && same_id(&self.frozen[k].id, id) {
                return Some(k);
            }
            k = k + 1;
        }
        None
    }

    /// Whether `amount` may be credited to `who` in `id`.
    pub fn can_deposit(&self, id: AssetId, who: AccountId, amount: Balance, minted: bool) -> (r: Result<
        (),
        Error,
    >)
        requires
            self.wf(),
        ensures
            r == self@.can_increase(id, who, amount, minted),
    {
        self.can_increase(id, who, amount, minted)
    }

    /// `owner` lets `delegate` move `amount` more of its holding in `id`.
    pub fn approve(&mut self, id: AssetId, owner: AccountId, delegate: AccountId, amount: Balance) -> (r:
        Result<(), Error>)
        requires
            old(self).wf(),
        ensures
            final(self).wf(),
            certificates_grow(old(self)@, final(self)@),
            match old(self)@.approve_result(id, owner, delegate, amount) {
                Ok(m) => r is Ok && final(self)@ == m,
                Err(e) => r == Err::<(), Error>(e) && final(self)@ == old(self)@,
            },
            r is Ok ==> final(self)@.assets[id].approvals[(owner, delegate)].deposit
                == old(self)@.config.approval_deposit && native_of(final(self)@.native, owner).reserved
                == native_of(old(self)@.native, owner).reserved + (if old(self)@.assets[id].approvals.contains_key(
                (owner, delegate),
            ) {
                0
            } else {
                old(self)@.config.approval_deposit
            }),
    {
        self.do_approve_transfer(id, owner, delegate, amount)
    }

    /// `delegate` moves `amount` of what `owner` approved it to `dest`.
    pub fn transfer_from(
        &mut self,
        id: AssetId,
        owner: AccountId,
        delegate: AccountId,
        dest: AccountId,
        amount: Balance,
    ) -> (r: Result<(), Error>)
        requires
            old(self).wf(),
        ensures
            final(self).wf(),
            certificates_grow(old(self)@, final(self)@),
            match old(self)@.transfer_approved_result(id, owner, delegate, dest, amount) {
                Ok(m) => r is Ok && final(self)@ == m,
                Err(e) => r == Err::<(), Error>(e) && final(self)@ == old(self)@,
            },
    {
        self.do_transfer_approved(id, owner, delegate, dest, amount)
    }

    /// Credits `amount` of new supply of `id` to `who`, whoever asks.
    pub fn mint_into(&mut self, id: AssetId, who: AccountId, amount: Balance) -> (r: Result<(), Error>)
        requires
            old(self).wf(),
        ensures
            final(self).wf(),
            certificates_grow(old(self)@, final(self)@),
            match old(self)@.mint_into_result(id, who, amount) {
                Ok(m) => r is Ok && final(self)@ == m,
                Err(e) => r == Err::<(), Error>(e) && final(self)@ == old(self)@,
            },
    {
        if amount == 0 {
            return Ok(());
        }
        self.can_increase(id, who, amount, true)?;
        let i = match self.find_asset(&id) {
            Some(i) => i,
            None => {
                proof {
                    assert(false);
                }
                0
            },
        };
        self.issue_at(i, who, amount);
        self.events.push(Event::Issued { asset_id: id, owner: who, total_supply: amount });
        Ok(())
    }

    /// Burns up to `amount` of `who`'s holding in `id`, whoever asks;
    /// returns what was burned.
    pub fn burn_from(&mut self, id: AssetId, who: AccountId, amount: Balance, best_effort: bool) -> (r:
        Result<Balance, Error>)
        requires
            old(self).wf(),
        ensures
            final(self).wf(),
            certificates_grow(old(self)@, final(self)@),
            match old(self)@.decrease_result(id, who, amount, DebitFlags { keep_alive: false, best_effort }, None) {
                Ok((a, m)) => r == Ok::<Balance, Error>(a) && final(self)@ == m.emit(
                    Event::Burned { asset_id: id, owner: who, balance: a },
                ),
                Err(e) => r == Err::<Balance, Error>(e) && final(self)@ == old(self)@,
            },
    {
        let f = DebitFlags { keep_alive: false, best_effort };
        let actual = self.decrease_balance(id, who, amount, f, None)?;
        self.events.push(Event::Burned { asset_id: id, owner: who, balance: actual });
        Ok(actual)
    }

    /// Brings the balance of `who` in `id` to `amount` by a best-effort burn
    /// or a mint; returns the balance reached, or the old one where that failed.
    pub fn set_balance(&mut self, id: AssetId, who: AccountId, amount: Balance) -> (r: Balance)
        requires
            old(self).wf(),
        ensures
            final(self).wf(),
            certificates_grow(old(self)@, final(self)@),
            ({
                let b = old(self)@.balance_of(id, who);
                if b > amount {
                    match old(self)@.decrease_result(id, who, (b - amount) as u64, DebitFlags { keep_alive: false, best_effort: true }, None) {
                        Ok((d, m)) => r == b - d && final(self)@ == m.emit(
                            Event::Burned { asset_id: id, owner: who, balance: d },
                        ),
                        Err(_) => r == b && final(self)@ == old(self)@,
                    }
                } else {
                    match old(self)@.mint_into_result(id, who, (amount - b) as u64) {
                        Ok(m) => r == amount && final(self)@ == m,
                        Err(_) => r == b && final(self)@ == old(self)@,
                    }
                }
            }),
    {
        let b = self.balance(id, who);
        if b > amount {
            match self.burn_from(id, who, b - amount, true) {
                Ok(d) => b - d,
                Err(_) => b,
            }
        } else {
            match self.mint_into(id, who, amount - b) {
                Ok(()) => amount,
                Err(_) => b,
            }
        }
    }

    /// A ledger built from `genesis`, without events; refused at the first
    /// entry that cannot be applied.
    pub fn build(config: Config, genesis: &GenesisConfig) -> (r: Result<Pallet, Error>)
        ensures
            match genesis_result(empty_ledger(config), *genesis) {
                Ok(m) => r is Ok && r->Ok_0.wf() && r->Ok_0@ == m,
                Err(e) => r == Err::<Pallet, Error>(e),
            },
    {
        let mut p = Pallet::new(config);
        let ghost empty = p@;
        p.custodian = genesis.custodian;
        let ghost m0 = p@;
        assert(m0 == LedgerModel { custodian: genesis.custodian, ..empty_ledger(config) });
        let ghost items = genesis.assets@;
        let mut k: usize = 0;
        while k < genesis.assets.len()
            invariant
                k <= items.len(),
                items == genesis.assets@,
                m0 == (LedgerModel { custodian: genesis.custodian, ..empty_ledger(config) }),
                p.wf(),
                run_steps(m0, items.take(k as int), genesis_asset_step()) == Ok::<LedgerModel, Error>(p@),
            decreases items.len() - k,
        {
            let (id, owner, is_sufficient, min_balance) = genesis.assets[k];
            proof {
                lemma_run_steps_next(m0, items, genesis_asset_step(), k as int);
            }
            if let Some(i) = p.find_asset(&id) {
                proof {
                    p.lemma_record(i as int);
                    lemma_run_steps_stop(m0, items, genesis_asset_step(), k + 1);
                }
                return Err(Error::InUse);
            }
            if min_balance == 0 {
                proof {
                    lemma_run_steps_stop(m0, items, genesis_asset_step(), k + 1);
                }
                return Err(Error::MinBalanceZero);
            }
            let rec = AssetRecord {
                id,
                details: AssetDetails {
                    owner,
                    issuer: owner,
                    admin: owner,
                    freezer: owner,
                    supply: 0,
                    deposit: 0,
                    min_balance,
                    is_sufficient,
                    accounts: 0,
                    sufficients: 0,
                    approvals: 0,
                    is_frozen: false,
                },
                metadata: None,
                holdings: Vec::new(),
                allowances: Vec::new(),
            };
            proof {
                assert(as_map(rec.holdings@) =~= Map::<AccountId, AssetAccount>::empty());
                assert(as_map(rec.allowances@) =~= Map::<(AccountId, AccountId), Approval>::empty());
            }
            p.push_record(rec);
            k = k + 1;
        }
        proof {
            assert(items.take(items.len() as int) =~= items);
        }
        let ghost m1 = p@;
        let ghost items = genesis.metadata@;
        let mut k: usize = 0;
        while k < genesis.metadata.len()
            invariant
                k <= items.len(),
                items == genesis.metadata@,
                m0 == (LedgerModel { custodian: genesis.custodian, ..empty_ledger(config) }),
                p.wf(),
                run_steps(m0, genesis.assets@, genesis_asset_step()) == Ok::<LedgerModel, Error>(m1),
                run_steps(m1, items.take(k as int), genesis_metadata_step()) == Ok::<LedgerModel, Error>(p@),
            decreases items.len() - k,
        {
            let entry = &genesis.metadata[k];
            let id = entry.0;
            proof {
                lemma_run_steps_next(m1, items, genesis_metadata_step(), k as int);
            }
            let i = match p.find_asset(&id) {
                None => {
                    proof {
                        lemma_run_steps_stop(m1, items, genesis_metadata_step(), k + 1);
                    }
                    return Err(Error::Unknown);
                },
                Some(i) => i,
            };
            proof {
                p.lemma_record(i as int);
            }
            let limit = p.config.string_limit as usize;
            if entry.1.len() > limit || entry.2.len() > limit {
                proof {
                    lemma_run_steps_stop(m1, items, genesis_metadata_step(), k + 1);
                }
                return Err(Error::BadMetadata);
            }
            let m = AssetMetadata {
                deposit: 0,
                name: entry.1.clone(),
                symbol: entry.2.clone(),
                url: Vec::new(),
                data_ipfs: Vec::new(),
                decimals: entry.3,
                is_frozen: false,
            };
            proof {
                assert(m.name@ =~= entry.1@);
                assert(m.symbol@ =~= entry.2@);
                assert(m.url@ =~= Seq::<u8>::empty());
                assert(m.data_ipfs@ =~= Seq::<u8>::empty());
            }
            p.set_metadata_at(i, Some(m));
            k = k + 1;
        }
        proof {
            assert(items.take(items.len() as int) =~= items);
        }
        let ghost m2 = p@;
        let ghost items = genesis.accounts@;
        let mut k: usize = 0;
        while k < genesis.accounts.len()
            invariant
                k <= items.len(),
                items == genesis.accounts@,
                m0 == (LedgerModel { custodian: genesis.custodian, ..empty_ledger(config) }),
                p.wf(),
                run_steps(m0, genesis.assets@, genesis_asset_step()) == Ok::<LedgerModel, Error>(m1),
                run_steps(m1, genesis.metadata@, genesis_metadata_step()) == Ok::<LedgerModel, Error>(m2),
                run_steps(m2, items.take(k as int), genesis_account_step()) == Ok::<LedgerModel, Error>(p@),
            decreases items.len() - k,
        {
            let (id, who, amount) = genesis.accounts[k];
            proof {
                lemma_run_steps_next(m2, items, genesis_account_step(), k as int);
            }
            if amount > 0 {
                match p.can_increase(id, who, amount, true) {
                    Err(e) => {
                        proof {
                            lemma_run_steps_stop(m2, items, genesis_account_step(), k + 1);
                        }
                        return Err(e);
                    },
                    Ok(()) => {},
                }
                let i = match p.find_asset(&id) {
                    Some(i) => i,
                    None => {
                        proof {
                            assert(false);
                        }
                        0
                    },
                };
                p.issue_at(i, who, amount);
            }
            k = k + 1;
        }
        proof {
            assert(items.take(items.len() as int) =~= items);
        }
        Ok(p)
    }

    /// In a consistent ledger, which every command keeps consistent, the
    /// supply of each class is the sum of the balances held in it, its
    /// account count is the number of its accounts, its sufficient count the
    /// number of its sufficient accounts, and its approval count the number
    /// of its approvals.
    pub proof fn lemma_supply_and_counts(&self, id: AssetId)
        requires
            self.wf(),
            self@.assets.contains_key(id),
        ensures
            self@.assets[id].accounts.dom().finite(),
            self@.assets[id].approvals.dom().finite(),
            self@.assets[id].details.supply == map_sum(self@.assets[id].accounts, account_balance()),
            self@.assets[id].details.accounts == self@.assets[id].accounts.dom().len(),
            self@.assets[id].details.sufficients == map_sum(
                self@.assets[id].accounts,
                account_sufficient(),
            ),
            self@.assets[id].details.approvals == self@.assets[id].approvals.dom().len(),
    {
        let i = choose|i: int| 0 <= i < self.assets@.len() && #[trigger] self.assets@[i].key() == id;
        self.lemma_record(i);
        let r = self.assets@[i];
        assert forall|h: Holding| #[trigger] balance_weight()(h) == account_balance()(h.val()) by {}
        assert forall|h: Holding| #[trigger] sufficient_weight()(h) == account_sufficient()(h.val()) by {}
        assert forall|a: Allowance| #[trigger] allowance_none()(a) == approval_none()(a.val()) by {}
        lemma_as_map_sum(r.holdings@, account_balance(), balance_weight());
        lemma_as_map_sum(r.holdings@, account_sufficient(), sufficient_weight());
        lemma_as_map_sum(r.allowances@, approval_none(), allowance_none());
    }

    /// Whether `amount` may be taken from `who` in `id`; `keep_alive` when
    /// the account must survive.
    pub fn can_decrease(&self, id: AssetId, who: AccountId, amount: Balance, keep_alive: bool) -> (r:
        Result<Balance, Error>)
        requires
            self.wf(),
        ensures
            r == self@.can_decrease(id, who, amount, keep_alive),
    {
        let i = match self.find_asset(&id) {
            None => return Err(Error::Unknown),
            Some(i) => i,
        };
        proof {
            self.lemma_record(i as int);
        }
        let d = self.assets[i].details;
        if d.is_frozen {
            return Err(Error::Frozen);
        }
        let j = match find_holding(&self.assets[i].holdings, who) {
            None => return Err(Error::NoAccount),
            Some(j) => j,
        };
        proof {
            lemma_index(self.assets@[i as int].holdings@, j as int);
        }
        let acc = self.assets[i].holdings[j].account;
        if acc.is_frozen {
            return Err(Error::Frozen);
        }
        if acc.balance < amount {
            return Err(Error::Underflow);
        }
        let rest = acc.balance - amount;
        if let Some(f) = self.find_frozen(&id, who) {
            if f > u64::MAX - d.min_balance {
                return Err(Error::Overflow);
            }
            if rest < f + d.min_balance {
                return Err(Error::Frozen);
            }
        }
        if rest < d.min_balance {
            if keep_alive {
                Err(Error::WouldDie)
            } else {
                Ok(rest)
            }
        } else {
            Ok(0)
        }
    }

    /// Whether `amount` may be taken from `who` in `id`, the account being
    /// allowed to die.
    pub fn can_withdraw(&self, id: AssetId, who: AccountId, amount: Balance) -> (r: Result<Balance, Error>)
        requires
            self.wf(),
        ensures
            r == self@.can_decrease(id, who, amount, false),
    {
        self.can_decrease(id, who, amount, false)
    }
}

fn release_holdings_exec(
    native: &mut NativeLedger,
    died: &mut Vec<(AssetId, AccountId)>,
    id: AssetId,
    hs: &Vec<Holding>,
)
    ensures
        final(native)@ == release_holdings(old(native)@, hs@),
        final(died)@ == old(died)@ + died_of(id, hs@),
{
    let mut k: usize = 0;
    while k < hs.len()
        invariant
            k <= hs@.len(),
            native@ == release_holdings(old(native)@, hs@.take(k as int)),
            died@ == old(died)@ + died_of(id, hs@.take(k as int)),
        decreases hs@.len() - k,
    {
        let h = hs[k];
        match h.account.reason {
            ExistenceReason::Consumer => native.dec_consumers(h.who),
            ExistenceReason::Sufficient => native.dec_sufficients(h.who),
            ExistenceReason::DepositHeld(_) => {},
        }
        died.push((id, h.who));
        proof {
            assert(hs@.take(k + 1).drop_last() =~= hs@.take(k as int));
            assert(died_of(id, hs@.take(k + 1)) =~= died_of(id, hs@.take(k as int)).push((id, h.who)));
        }
        k = k + 1;
    }
    proof {
        assert(hs@.take(hs@.len() as int) =~= hs@);
    }
}

fn release_approvals_exec(native: &mut NativeLedger, al: &Vec<Allowance>)
    ensures
        final(native)@ == release_approvals(old(native)@, al@),
{
    let mut k: usize = 0;
    while k < al.len()
        invariant
            k <= al@.len(),
            native@ == release_approvals(old(native)@, al@.take(k as int)),
        decreases al@.len() - k,
    {
        let a = al[k];
        native.unreserve(a.owner, a.approval.deposit);
        proof {
            assert(al@.take(k + 1).drop_last() =~= al@.take(k as int));
        }
        k = k + 1;
    }
    proof {
        assert(al@.take(al@.len() as int) =~= al@);
    }
}

/// A copy of `m`.
pub fn clone_metadata(m: &AssetMetadata) -> (r: AssetMetadata)
    ensures
        r@ == m@,
{
    let r = AssetMetadata {
        deposit: m.deposit,
        name: m.name.clone(),
        symbol: m.symbol.clone(),
        url: m.url.clone(),
        data_ipfs: m.data_ipfs.clone(),
        decimals: m.decimals,
        is_frozen: m.is_frozen,
    };
    proof {
        assert(r.name@ =~= m.name@);
        assert(r.symbol@ =~= m.symbol@);
        assert(r.url@ =~= m.url@);
        assert(r.data_ipfs@ =~= m.data_ipfs@);
    }
    r
}

} // verus!

