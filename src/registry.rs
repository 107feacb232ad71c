//! The registry of platform users and the roles each of them holds.

use crate::accounts::{
    is_roles_correct, is_roles_mask_included, mask_included, roles_correct, AccountStruct, RoleMask,
    AUDITOR_ROLE_MASK, BOND_ARRANGER_ROLE_MASK, CC_AUDITOR_ROLE_MASK, CC_INVESTOR_ROLE_MASK,
    CC_PROJECT_OWNER_ROLE_MASK, CC_REGISTRY_ROLE_MASK, CC_STANDARD_ROLE_MASK, CUSTODIAN_ROLE_MASK,
    IMPACT_REPORTER_ROLE_MASK, INVESTOR_ROLE_MASK, ISSUER_ROLE_MASK, MANAGER_ROLE_MASK,
    MASTER_ROLE_MASK,
};
use std::collections::HashMap;
use vstd::prelude::*;

verus! {

broadcast use vstd::std_specs::hash::group_hash_axioms;

/// Why a registry command was refused.
#[derive(Clone, Copy, Debug, PartialEq, Eq, Structural)]
pub enum RegistryError {
    AccountNotAuditor,
    AccountNotOwner,
    AccountNotStandard,
    AccountNotRegistry,
    AccountNotInvestor,
    AccountToAddAlreadyExists,
    AccountRoleParamIncorrect,
    AccountNotExist,
    AccountRoleMasterIncluded,
    InvalidAction,
    AccountNotAuthorized,
}

/// What a successful registry command reports.
#[derive(Clone, Copy, Debug, PartialEq, Eq, Structural)]
pub enum RegistryEvent {
    /// master, account, role, identity
    AccountAdd(u64, u64, RoleMask, u64),
    /// master, account, role
    AccountSet(u64, u64, RoleMask),
    /// master, account, role
    AccountWithdraw(u64, u64, RoleMask),
    /// master, account
    MasterSet(u64, u64),
    /// master, account
    AccountDisable(u64, u64),
}

/// The registry as a mathematical value.
pub struct RegistryModel {
    pub accounts: Map<u64, AccountStruct<u64>>,
    pub fuse: bool,
    pub events: Seq<RegistryEvent>,
}

impl RegistryModel {
    /// The roles of `who`; an unregistered account holds none.
    pub open spec fn roles_of(self, who: u64) -> RoleMask {
        if self.accounts.contains_key(who) {
            self.accounts[who].roles
        } else {
            0
        }
    }

    pub open spec fn has_role(self, who: u64, mask: RoleMask) -> bool {
        self.roles_of(who) & mask != 0
    }

    /// The record of `who` as a read sees it: the default record when absent.
    pub open spec fn record_of(self, who: u64) -> AccountStruct<u64> {
        if self.accounts.contains_key(who) {
            self.accounts[who]
        } else {
            AccountStruct { roles: 0, identity: 0, create_time: 0 }
        }
    }
}

/// The registry of accounts, built once from a genesis list.
pub struct Module {
    registry: HashMap<u64, AccountStruct<u64>>,
    fuse: bool,
    events: Vec<RegistryEvent>,
}

/// The registry that a genesis list describes: later entries overwrite earlier ones.
pub open spec fn genesis_map(g: Seq<(u64, AccountStruct<u64>)>) -> Map<u64, AccountStruct<u64>>
    decreases g.len(),
{
    if g.len() == 0 {
        Map::empty()
    } else {
        genesis_map(g.drop_last()).insert(g.last().0, g.last().1)
    }
}

impl View for Module {
    type V = RegistryModel;

    closed spec fn view(&self) -> RegistryModel {
        RegistryModel { accounts: self.registry@, fuse: self.fuse, events: self.events@ }
    }
}

impl Module {
    /// A registry holding the genesis accounts; the master fuse is blown when
    /// there is at least one.
    pub fn new(genesis: Vec<(u64, AccountStruct<u64>)>) -> (r: Self)
        ensures
            r@.accounts == genesis_map(genesis@),
            r@.fuse == (genesis@.len() > 0),
            r@.events == Seq::<RegistryEvent>::empty(),
    {
        let mut registry: HashMap<u64, AccountStruct<u64>> = HashMap::new();
        let mut i: usize = 0;
        while i < genesis.len()
            invariant
                i <= genesis@.len(),
                registry@ == genesis_map(genesis@.take(i as int)),
            decreases genesis@.len() - i,
        {
            let (who, record) = genesis[i];
            registry.insert(who, record);
            proof {
                assert(genesis@.take(i + 1).drop_last() == genesis@.take(i as int));
            }
            i = i + 1;
        }
        proof {
            assert(genesis@.take(genesis@.len() as int) == genesis@);
        }
        Module { registry, fuse: genesis.len() > 0, events: Vec::new() }
    }

    /// Whether the master role has been handed out already.
    pub fn fuse(&self) -> (r: bool)
        ensures
            r == self@.fuse,
    {
        self.fuse
    }

    /// The record of `acc`, or the default record when it is not registered.
    pub fn account_registry(&self, acc: &u64) -> (r: AccountStruct<u64>)
        ensures
            r == self@.record_of(*acc),
    {
        match self.registry.get(acc) {
            Some(rec) => *rec,
            None => AccountStruct { roles: 0, identity: 0, create_time: 0 },
        }
    }

    /// The events reported so far, oldest first.
    pub fn events(&self) -> (r: Vec<RegistryEvent>)
        ensures
            r@ == self@.events,
    {
        self.events.clone()
    }

    fn roles(&self, acc: &u64) -> (r: RoleMask)
        ensures
            r == self@.roles_of(*acc),
    {
        match self.registry.get(acc) {
            Some(rec) => rec.roles,
            None => 0,
        }
    }

    pub fn account_is_master(&self, acc: &u64) -> (r: bool)
        ensures
            r == self@.has_role(*acc, MASTER_ROLE_MASK),
    {
        self.roles(acc) & MASTER_ROLE_MASK != 0
    }

    pub fn account_is_custodian(&self, acc: &u64) -> (r: bool)
        ensures
            r == self@.has_role(*acc, CUSTODIAN_ROLE_MASK),
    {
        self.roles(acc) & CUSTODIAN_ROLE_MASK != 0
    }

    pub fn account_is_issuer(&self, acc: &u64) -> (r: bool)
        ensures
            r == self@.has_role(*acc, ISSUER_ROLE_MASK),
    {
        self.roles(acc) & ISSUER_ROLE_MASK != 0
    }

    pub fn account_is_investor(&self, acc: &u64) -> (r: bool)
        ensures
            r == self@.has_role(*acc, INVESTOR_ROLE_MASK),
    {
        self.roles(acc) & INVESTOR_ROLE_MASK != 0
    }

    pub fn account_is_auditor(&self, acc: &u64) -> (r: bool)
        ensures
            r == self@.has_role(*acc, AUDITOR_ROLE_MASK),
    {
        self.roles(acc) & AUDITOR_ROLE_MASK != 0
    }

    pub fn account_is_manager(&self, acc: &u64) -> (r: bool)
        ensures
            r == self@.has_role(*acc, MANAGER_ROLE_MASK),
    {
        self.roles(acc) & MANAGER_ROLE_MASK != 0
    }

    pub fn account_is_impact_reporter(&self, acc: &u64) -> (r: bool)
        ensures
            r == self@.has_role(*acc, IMPACT_REPORTER_ROLE_MASK),
    {
        self.roles(acc) & IMPACT_REPORTER_ROLE_MASK != 0
    }

    pub fn account_is_bond_arranger(&self, acc: &u64) -> (r: bool)
        ensures
            r == self@.has_role(*acc, BOND_ARRANGER_ROLE_MASK),
    {
        self.roles(acc) & BOND_ARRANGER_ROLE_MASK != 0
    }

    /// Investors and issuers may ask for tokens to be minted or burned.
    pub fn account_token_mint_burn_allowed(&self, acc: &u64) -> (r: bool)
        ensures
            r == self@.has_role(*acc, INVESTOR_ROLE_MASK | ISSUER_ROLE_MASK),
    {
        self.roles(acc) & (INVESTOR_ROLE_MASK | ISSUER_ROLE_MASK) != 0
    }

    pub fn account_is_cc_project_owner(&self, acc: &u64) -> (r: bool)
        ensures
            r == self@.has_role(*acc, CC_PROJECT_OWNER_ROLE_MASK),
    {
        self.roles(acc) & CC_PROJECT_OWNER_ROLE_MASK != 0
    }

    pub fn account_is_cc_auditor(&self, acc: &u64) -> (r: bool)
        ensures
            r == self@.has_role(*acc, CC_AUDITOR_ROLE_MASK),
    {
        self.roles(acc) & CC_AUDITOR_ROLE_MASK != 0
    }

    pub fn account_is_cc_standard(&self, acc: &u64) -> (r: bool)
        ensures
            r == self@.has_role(*acc, CC_STANDARD_ROLE_MASK),
    {
        self.roles(acc) & CC_STANDARD_ROLE_MASK != 0
    }

    pub fn account_is_cc_investor(&self, acc: &u64) -> (r: bool)
        ensures
            r == self@.has_role(*acc, CC_INVESTOR_ROLE_MASK),
    {
        self.roles(acc) & CC_INVESTOR_ROLE_MASK != 0
    }

    pub fn account_is_cc_registry(&self, acc: &u64) -> (r: bool)
        ensures
            r == self@.has_role(*acc, CC_REGISTRY_ROLE_MASK),
    {
        self.roles(acc) & CC_REGISTRY_ROLE_MASK != 0
    }

    pub fn account_is_selected_role(&self, acc: &u64, role: RoleMask) -> (r: bool)
        ensures
            r == self@.has_role(*acc, role),
    {
        self.roles(acc) & role != 0
    }

    /// Makes `caller` the master when no master has been set yet; `now` is the
    /// current time.
    pub fn set_master(&mut self, caller: u64, now: u64) -> (r: Result<(), RegistryError>)
        ensures
            old(self)@.fuse ==> r == Err::<(), RegistryError>(RegistryError::InvalidAction)
                && final(self)@ == old(self)@,
            !old(self)@.fuse ==> r is Ok && final(self)@ == (RegistryModel {
                accounts: old(self)@.accounts.insert(
                    caller,
                    AccountStruct { roles: MASTER_ROLE_MASK, identity: 0, create_time: now },
                ),
                fuse: true,
                events: old(self)@.events,
            }),
    {
        if self.fuse {
            return Err(RegistryError::InvalidAction);
        }
        self.registry.insert(caller, AccountStruct::new(MASTER_ROLE_MASK, 0, now));
        self.fuse = true;
        Ok(())
    }

    /// A master adds the new account `who` with the roles `role` (the master
    /// role excluded) and the external identity `identity`.
    pub fn account_add_with_role_and_data(
        &mut self,
        caller: u64,
        who: u64,
        role: RoleMask,
        identity: u64,
        now: u64,
    ) -> (r: Result<(), RegistryError>)
        ensures
            r == (if !old(self)@.has_role(caller, MASTER_ROLE_MASK) {
                Err(RegistryError::AccountNotAuthorized)
            } else if old(self)@.accounts.contains_key(who) {
                Err(RegistryError::AccountToAddAlreadyExists)
            } else if !roles_correct(role) {
                Err(RegistryError::AccountRoleParamIncorrect)
            } else if mask_included(role, MASTER_ROLE_MASK) {
                Err(RegistryError::AccountRoleMasterIncluded)
            } else {
                Ok(())
            }),
            r is Err ==> final(self)@ == old(self)@,
            r is Ok ==> final(self)@ == (RegistryModel {
                accounts: old(self)@.accounts.insert(
                    who,
                    AccountStruct { roles: role, identity, create_time: now },
                ),
                fuse: old(self)@.fuse,
                events: old(self)@.events.push(RegistryEvent::AccountAdd(caller, who, role, identity)),
            }),
    {
        if !self.account_is_master(&caller) {
            return Err(RegistryError::AccountNotAuthorized);
        }
        if self.registry.contains_key(&who) {
            return Err(RegistryError::AccountToAddAlreadyExists);
        }
        if !is_roles_correct(role) {
            return Err(RegistryError::AccountRoleParamIncorrect);
        }
        if is_roles_mask_included(role, MASTER_ROLE_MASK) {
            return Err(RegistryError::AccountRoleMasterIncluded);
        }
        self.registry.insert(who, AccountStruct::new(role, identity, now));
        self.events.push(RegistryEvent::AccountAdd(caller, who, role, identity));
        Ok(())
    }

    /// A master grants the roles `role` (the master role excluded) to the
    /// registered account `who`, keeping the roles it had.
    pub fn account_set_with_role_and_data(&mut self, caller: u64, who: u64, role: RoleMask) -> (r:
        Result<(), RegistryError>)
        ensures
            r == (if caller == who {
                Err(RegistryError::InvalidAction)
            } else if !old(self)@.has_role(caller, MASTER_ROLE_MASK) {
                Err(RegistryError::AccountNotAuthorized)
            } else if !old(self)@.accounts.contains_key(who) {
                Err(RegistryError::AccountNotExist)
            } else if !roles_correct(role) {
                Err(RegistryError::AccountRoleParamIncorrect)
            } else if mask_included(role, MASTER_ROLE_MASK) {
                Err(RegistryError::AccountRoleMasterIncluded)
            } else {
                Ok(())
            }),
            r is Err ==> final(self)@ == old(self)@,
            r is Ok ==> final(self)@ == (RegistryModel {
                accounts: old(self)@.accounts.insert(
                    who,
                    AccountStruct { roles: old(self)@.accounts[who].roles | role, ..old(self)@.accounts[who] },
                ),
                fuse: old(self)@.fuse,
                events: old(self)@.events.push(RegistryEvent::AccountSet(caller, who, role)),
            }),
    {
        if caller == who {
            return Err(RegistryError::InvalidAction);
        }
        if !self.account_is_master(&caller) {
            return Err(RegistryError::AccountNotAuthorized);
        }
        if !self.registry.contains_key(&who) {
            return Err(RegistryError::AccountNotExist);
        }
        if !is_roles_correct(role) {
            return Err(RegistryError::AccountRoleParamIncorrect);
        }
        if is_roles_mask_included(role, MASTER_ROLE_MASK) {
            return Err(RegistryError::AccountRoleMasterIncluded);
        }
        let mut rec = self.account_registry(&who);
        rec.roles = rec.roles | role;
        self.registry.insert(who, rec);
        self.events.push(RegistryEvent::AccountSet(caller, who, role));
        Ok(())
    }

    /// A master makes `who` a master too; an unregistered `who` is registered
    /// with the master role alone.
    pub fn add_master_role(&mut self, caller: u64, who: u64) -> (r: Result<(), RegistryError>)
        ensures
            r == (if caller == who {
                Err(RegistryError::InvalidAction)
            } else if !old(self)@.has_role(caller, MASTER_ROLE_MASK) {
                Err(RegistryError::AccountNotAuthorized)
            } else if old(self)@.has_role(who, MASTER_ROLE_MASK) {
                Err(RegistryError::InvalidAction)
            } else {
                Ok(())
            }),
            r is Err ==> final(self)@ == old(self)@,
            r is Ok ==> final(self)@ == (RegistryModel {
                accounts: old(self)@.accounts.insert(
                    who,
                    AccountStruct {
                        roles: old(self)@.record_of(who).roles | MASTER_ROLE_MASK,
                        ..old(self)@.record_of(who)
                    },
                ),
                fuse: old(self)@.fuse,
                events: old(self)@.events.push(RegistryEvent::MasterSet(caller, who)),
            }),
    {
        if caller == who {
            return Err(RegistryError::InvalidAction);
        }
        if !self.account_is_master(&caller) {
            return Err(RegistryError::AccountNotAuthorized);
        }
        if self.account_is_master(&who) {
            return Err(RegistryError::InvalidAction);
        }
        let mut rec = self.account_registry(&who);
        rec.roles = rec.roles | MASTER_ROLE_MASK;
        self.registry.insert(who, rec);
        self.events.push(RegistryEvent::MasterSet(caller, who));
        Ok(())
    }

    /// A master toggles off the bits of `role` (the master role excluded) in the
    /// roles of the registered account `who`.
    pub fn account_withdraw_role(&mut self, caller: u64, who: u64, role: RoleMask) -> (r: Result<
        (),
        RegistryError,
    >)
        ensures
            r == (if caller == who {
                Err(RegistryError::InvalidAction)
            } else if !old(self)@.has_role(caller, MASTER_ROLE_MASK) {
                Err(RegistryError::AccountNotAuthorized)
            } else if !old(self)@.accounts.contains_key(who) {
                Err(RegistryError::AccountNotExist)
            } else if !roles_correct(role) {
                Err(RegistryError::AccountRoleParamIncorrect)
            } else if mask_included(role, MASTER_ROLE_MASK) {
                Err(RegistryError::AccountRoleMasterIncluded)
            } else {
                Ok(())
            }),
            r is Err ==> final(self)@ == old(self)@,
            r is Ok ==> final(self)@ == (RegistryModel {
                accounts: old(self)@.accounts.insert(
                    who,
                    AccountStruct { roles: old(self)@.accounts[who].roles ^ role, ..old(self)@.accounts[who] },
                ),
                fuse: old(self)@.fuse,
                events: old(self)@.events.push(RegistryEvent::AccountWithdraw(caller, who, role)),
            }),
    {
        if caller == who {
            return Err(RegistryError::InvalidAction);
        }
        if !self.account_is_master(&caller) {
            return Err(RegistryError::AccountNotAuthorized);
        }
        if !self.registry.contains_key(&who) {
            return Err(RegistryError::AccountNotExist);
        }
        if !is_roles_correct(role) {
            return Err(RegistryError::AccountRoleParamIncorrect);
        }
        if is_roles_mask_included(role, MASTER_ROLE_MASK) {
            return Err(RegistryError::AccountRoleMasterIncluded);
        }
        let mut rec = self.account_registry(&who);
        rec.roles = rec.roles ^ role;
        self.registry.insert(who, rec);
        self.events.push(RegistryEvent::AccountWithdraw(caller, who, role));
        Ok(())
    }

    /// A master clears every role of the registered account `who`; the record stays.
    pub fn account_disable(&mut self, caller: u64, who: u64) -> (r: Result<(), RegistryError>)
        ensures
            r == (if !old(self)@.has_role(caller, MASTER_ROLE_MASK) {
                Err(RegistryError::AccountNotAuthorized)
            } else if caller == who {
                Err(RegistryError::InvalidAction)
            } else if !old(self)@.accounts.contains_key(who) {
                Err(RegistryError::AccountNotExist)
            } else {
                Ok(())
            }),
            r is Err ==> final(self)@ == old(self)@,
            r is Ok ==> final(self)@ == (RegistryModel {
                accounts: old(self)@.accounts.insert(
                    who,
                    AccountStruct { roles: 0, ..old(self)@.accounts[who] },
                ),
                fuse: old(self)@.fuse,
                events: old(self)@.events.push(RegistryEvent::AccountDisable(caller, who)),
            }),
    {
        if !self.account_is_master(&caller) {
            return Err(RegistryError::AccountNotAuthorized);
        }
        if caller == who {
            return Err(RegistryError::InvalidAction);
        }
        if !self.registry.contains_key(&who) {
            return Err(RegistryError::AccountNotExist);
        }
        let mut rec = self.account_registry(&who);
        rec.roles = 0;
        self.registry.insert(who, rec);
        self.events.push(RegistryEvent::AccountDisable(caller, who));
        Ok(())
    }
}

} // verus!
