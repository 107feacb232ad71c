//! Role bit masks of the platform's users and the record kept for each account.

use vstd::prelude::*;

verus! {

pub type RoleMask = u32;

pub const MASTER_ROLE_MASK: RoleMask = 1;

pub const CUSTODIAN_ROLE_MASK: RoleMask = 2;

pub const ISSUER_ROLE_MASK: RoleMask = 4;

pub const INVESTOR_ROLE_MASK: RoleMask = 8;

pub const AUDITOR_ROLE_MASK: RoleMask = 16;

pub const MANAGER_ROLE_MASK: RoleMask = 32;

pub const IMPACT_REPORTER_ROLE_MASK: RoleMask = 64;

pub const BOND_ARRANGER_ROLE_MASK: RoleMask = 128;

// Carbon-credit roles.
pub const CC_PROJECT_OWNER_ROLE_MASK: RoleMask = 256;

pub const CC_AUDITOR_ROLE_MASK: RoleMask = 512;

pub const CC_STANDARD_ROLE_MASK: RoleMask = 1024;

pub const CC_INVESTOR_ROLE_MASK: RoleMask = 2048;

pub const CC_REGISTRY_ROLE_MASK: RoleMask = 4096;

/// Every role at once: the largest valid mask.
pub const ALL_ROLES_MASK: RoleMask = MASTER_ROLE_MASK | CUSTODIAN_ROLE_MASK | ISSUER_ROLE_MASK
    | INVESTOR_ROLE_MASK | AUDITOR_ROLE_MASK | MANAGER_ROLE_MASK | IMPACT_REPORTER_ROLE_MASK
    | BOND_ARRANGER_ROLE_MASK | CC_PROJECT_OWNER_ROLE_MASK | CC_AUDITOR_ROLE_MASK
    | CC_STANDARD_ROLE_MASK | CC_INVESTOR_ROLE_MASK | CC_REGISTRY_ROLE_MASK;

/// A mask is valid when it is non-empty and no larger than the union of all roles.
pub open spec fn roles_correct(roles: RoleMask) -> bool {
    roles <= ALL_ROLES_MASK && roles > 0
}

/// `roles` is non-empty and shares at least one bit with `mask`.
pub open spec fn mask_included(roles: RoleMask, mask: RoleMask) -> bool {
    (roles & mask) != 0 && roles > 0
}

pub fn is_roles_correct(roles: RoleMask) -> (r: bool)
    ensures
        r == roles_correct(roles),
{
    roles <= ALL_ROLES_MASK && roles > 0
}

pub fn is_roles_mask_included(roles: RoleMask, const_mask: RoleMask) -> (r: bool)
    ensures
        r == mask_included(roles, const_mask),
{
    (roles & const_mask) != 0 && roles > 0
}

/// What the registry holds of an account: its roles, an external identity and
/// the moment it was registered.
#[derive(Clone, Copy, Debug, PartialEq, Eq, Default)]
pub struct AccountStruct<Moment> {
    pub roles: RoleMask,
    pub identity: u64,
    pub create_time: Moment,
}

impl<Moment> AccountStruct<Moment> {
    pub fn new(roles: RoleMask, identity: u64, create_time: Moment) -> (r: Self)
        ensures
            r.roles == roles,
            r.identity == identity,
            r.create_time == create_time,
    {
        AccountStruct { roles, identity, create_time }
    }
}

} // verus!
