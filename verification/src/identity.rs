use vstd::prelude::*;
use vstd::std_specs::cmp::PartialEqSpecImpl;

verus! {

/// What an identity refers to.
#[derive(Clone, Copy, Debug, PartialEq, Eq, Hash, Structural)]
pub enum IdentityKind {
    /// A user account.
    Account,
    /// A stored contract.
    Contract,
}

/// A principal: the caller of an operation, a teacher or a student.
///
/// Two identities are the same principal exactly when kind and address agree.
#[derive(Clone, Copy, Debug, Eq, Hash)]
pub struct Identity {
    pub kind: IdentityKind,
    pub addr: [u8; 32],
}

impl Identity {
    /// The account with the given address.
    pub fn account(addr: [u8; 32]) -> (id: Identity)
        ensures
            id == (Identity { kind: IdentityKind::Account, addr }),
    {
        Identity { kind: IdentityKind::Account, addr }
    }

    /// The contract with the given address.
    pub fn contract(addr: [u8; 32]) -> (id: Identity)
        ensures
            id == (Identity { kind: IdentityKind::Contract, addr }),
    {
        Identity { kind: IdentityKind::Contract, addr }
    }
}

impl PartialEq for Identity {
    fn eq(&self, other: &Self) -> (same: bool) {
        if self.kind != other.kind {
            return false;
        }
        let mut i: usize = 0;
        while i < 32
            invariant
                i <= 32,
                forall|j: int| 0 <= j < i ==> self.addr[j] == other.addr[j],
            decreases 32 - i,
        {
            if self.addr[i] != other.addr[i] {
                return false;
            }
            i += 1;
        }
        assert(self.addr =~= other.addr);
        true
    }
}

impl PartialEqSpecImpl for Identity {
    open spec fn obeys_eq_spec() -> bool {
        true
    }

    open spec fn eq_spec(&self, other: &Self) -> bool {
        *self == *other
    }
}

} // verus!
