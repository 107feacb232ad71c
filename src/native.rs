//! The native-currency ledger that deposits are reserved against, with the
//! reference counts that keep its accounts alive.

use crate::types::{AccountId, Balance, Error};
use std::collections::HashMap;
use vstd::prelude::*;

verus! {

broadcast use vstd::std_specs::hash::group_hash_axioms;

/// One account of the native ledger.
#[derive(Clone, Copy, Debug, PartialEq, Eq, Structural)]
pub struct NativeAccount {
    pub free: Balance,
    pub reserved: Balance,
    /// References held by holdings of non-sufficient asset classes.
    pub consumers: u32,
    /// References held by holdings of sufficient asset classes.
    pub sufficients: u32,
}

pub open spec fn empty_native() -> NativeAccount {
    NativeAccount { free: 0, reserved: 0, consumers: 0, sufficients: 0 }
}

/// The account of `who`; an account never written holds nothing.
pub open spec fn native_of(m: Map<AccountId, NativeAccount>, who: AccountId) -> NativeAccount {
    if m.contains_key(who) {
        m[who]
    } else {
        empty_native()
    }
}

/// An account with any native funds provides for consumers.
pub open spec fn has_provider(m: Map<AccountId, NativeAccount>, who: AccountId) -> bool {
    native_of(m, who).free + native_of(m, who).reserved > 0
}

/// One more consumer reference may be taken by `who`.
pub open spec fn can_inc_consumer(m: Map<AccountId, NativeAccount>, who: AccountId, max: u32) -> bool {
    has_provider(m, who) && native_of(m, who).consumers < max
}

/// Moves `amount` from free to reserved funds.
pub open spec fn reserve_spec(m: Map<AccountId, NativeAccount>, who: AccountId, amount: Balance) -> Result<
    Map<AccountId, NativeAccount>,
    Error,
> {
    let a = native_of(m, who);
    if amount == 0 {
        Ok(m)
    } else if a.free < amount {
        Err(Error::InsufficientBalance)
    } else if a.reserved + amount > u64::MAX {
        Err(Error::Overflow)
    } else {
        Ok(
            m.insert(
                who,
                NativeAccount {
                    free: (a.free - amount) as u64,
                    reserved: (a.reserved + amount) as u64,
                    ..a
                },
            ),
        )
    }
}

/// Moves back to free funds as much of `amount` as is reserved.
pub open spec fn unreserve_spec(m: Map<AccountId, NativeAccount>, who: AccountId, amount: Balance) -> Map<
    AccountId,
    NativeAccount,
> {
    let a = native_of(m, who);
    let actual = if amount <= a.reserved {
        amount
    } else {
        a.reserved
    };
    if actual == 0 {
        m
    } else {
        m.insert(
            who,
            NativeAccount {
                free: if a.free + actual > u64::MAX {
                    u64::MAX
                } else {
                    (a.free + actual) as u64
                },
                reserved: (a.reserved - actual) as u64,
                ..a
            },
        )
    }
}

/// Moves as much of `amount` as `from` has reserved into the reserved funds of `to`.
pub open spec fn repatriate_spec(
    m: Map<AccountId, NativeAccount>,
    from: AccountId,
    to: AccountId,
    amount: Balance,
) -> Map<AccountId, NativeAccount> {
    let a = native_of(m, from);
    let b = native_of(m, to);
    let actual = if amount <= a.reserved {
        amount
    } else {
        a.reserved
    };
    if from == to || actual == 0 {
        m
    } else {
        m.insert(from, NativeAccount { reserved: (a.reserved - actual) as u64, ..a }).insert(
            to,
            NativeAccount {
                reserved: if b.reserved + actual > u64::MAX {
                    u64::MAX
                } else {
                    (b.reserved + actual) as u64
                },
                ..b
            },
        )
    }
}

pub open spec fn inc_consumers_spec(m: Map<AccountId, NativeAccount>, who: AccountId) -> Map<
    AccountId,
    NativeAccount,
> {
    let a = native_of(m, who);
    m.insert(who, NativeAccount { consumers: (a.consumers + 1) as u32, ..a })
}

pub open spec fn dec_consumers_spec(m: Map<AccountId, NativeAccount>, who: AccountId) -> Map<
    AccountId,
    NativeAccount,
> {
    let a = native_of(m, who);
    if a.consumers == 0 {
        m
    } else {
        m.insert(who, NativeAccount { consumers: (a.consumers - 1) as u32, ..a })
    }
}

pub open spec fn inc_sufficients_spec(m: Map<AccountId, NativeAccount>, who: AccountId) -> Map<
    AccountId,
    NativeAccount,
> {
    let a = native_of(m, who);
    if a.sufficients == u32::MAX {
        m
    } else {
        m.insert(who, NativeAccount { sufficients: (a.sufficients + 1) as u32, ..a })
    }
}

pub open spec fn dec_sufficients_spec(m: Map<AccountId, NativeAccount>, who: AccountId) -> Map<
    AccountId,
    NativeAccount,
> {
    let a = native_of(m, who);
    if a.sufficients == 0 {
        m
    } else {
        m.insert(who, NativeAccount { sufficients: (a.sufficients - 1) as u32, ..a })
    }
}

/// The native ledger.
pub struct NativeLedger {
    accounts: HashMap<AccountId, NativeAccount>,
}

impl View for NativeLedger {
    type V = Map<AccountId, NativeAccount>;

    closed spec fn view(&self) -> Map<AccountId, NativeAccount> {
        self.accounts@
    }
}

impl NativeLedger {
    pub fn new() -> (r: Self)
        ensures
            r@ == Map::<AccountId, NativeAccount>::empty(),
    {
        NativeLedger { accounts: HashMap::new() }
    }

    pub fn get(&self, who: AccountId) -> (r: NativeAccount)
        ensures
            r == native_of(self@, who),
    {
        match self.accounts.get(&who) {
            Some(a) => *a,
            None => NativeAccount { free: 0, reserved: 0, consumers: 0, sufficients: 0 },
        }
    }

    fn put(&mut self, who: AccountId, a: NativeAccount)
        ensures
            final(self)@ == old(self)@.insert(who, a),
    {
        self.accounts.insert(who, a);
    }

    pub fn set_free(&mut self, who: AccountId, free: Balance)
        ensures
            final(self)@ == old(self)@.insert(who, NativeAccount { free, ..native_of(old(self)@, who) }),
    {
        let mut a = self.get(who);
        a.free = free;
        self.put(who, a);
    }

    pub fn has_provider(&self, who: AccountId) -> (r: bool)
        ensures
            r == has_provider(self@, who),
    {
        let a = self.get(who);
        a.free > 0 || a.reserved > 0
    }

    pub fn can_inc_consumer(&self, who: AccountId, max: u32) -> (r: bool)
        ensures
            r == can_inc_consumer(self@, who, max),
    {
        let a = self.get(who);
        (a.free > 0 || a.reserved > 0) && a.consumers < max
    }

    pub fn reserve(&mut self, who: AccountId, amount: Balance) -> (r: Result<(), Error>)
        ensures
            match reserve_spec(old(self)@, who, amount) {
                Ok(m) => r is Ok && final(self)@ == m,
                Err(e) => r == Err::<(), Error>(e) && final(self)@ == old(self)@,
            },
    {
        if amount == 0 {
            return Ok(());
        }
        let mut a = self.get(who);
        if a.free < amount {
            return Err(Error::InsufficientBalance);
        }
        if a.reserved > u64::MAX - amount {
            return Err(Error::Overflow);
        }
        a.free = a.free - amount;
        a.reserved = a.reserved + amount;
        self.put(who, a);
        Ok(())
    }

    pub fn unreserve(&mut self, who: AccountId, amount: Balance)
        ensures
            final(self)@ == unreserve_spec(old(self)@, who, amount),
    {
        let mut a = self.get(who);
        let actual = if amount <= a.reserved {
            amount
        } else {
            a.reserved
        };
        if actual == 0 {
            return ;
        }
        a.free = a.free.saturating_add(actual);
        a.reserved = a.reserved - actual;
        self.put(who, a);
    }

    pub fn repatriate_reserved(&mut self, from: AccountId, to: AccountId, amount: Balance)
        ensures
            final(self)@ == repatriate_spec(old(self)@, from, to, amount),
    {
        if from == to {
            return ;
        }
        let mut a = self.get(from);
        let mut b = self.get(to);
        let actual = if amount <= a.reserved {
            amount
        } else {
            a.reserved
        };
        if actual == 0 {
            return ;
        }
        a.reserved = a.reserved - actual;
        b.reserved = b.reserved.saturating_add(actual);
        self.put(from, a);
        self.put(to, b);
    }

    pub fn inc_consumers(&mut self, who: AccountId)
        requires
            native_of(old(self)@, who).consumers < u32::MAX,
        ensures
            final(self)@ == inc_consumers_spec(old(self)@, who),
    {
        let mut a = self.get(who);
        a.consumers = a.consumers + 1;
        self.put(who, a);
    }

    pub fn dec_consumers(&mut self, who: AccountId)
        ensures
            final(self)@ == dec_consumers_spec(old(self)@, who),
    {
        let mut a = self.get(who);
        if a.consumers == 0 {
            return ;
        }
        a.consumers = a.consumers - 1;
        self.put(who, a);
    }

    pub fn inc_sufficients(&mut self, who: AccountId)
        ensures
            final(self)@ == inc_sufficients_spec(old(self)@, who),
    {
        let mut a = self.get(who);
        if a.sufficients == u32::MAX {
            return ;
        }
        a.sufficients = a.sufficients + 1;
        self.put(who, a);
    }

    pub fn dec_sufficients(&mut self, who: AccountId)
        ensures
            final(self)@ == dec_sufficients_spec(old(self)@, who),
    {
        let mut a = self.get(who);
        if a.sufficients == 0 {
            return ;
        }
        a.sufficients = a.sufficients - 1;
        self.put(who, a);
    }
}

} // verus!
