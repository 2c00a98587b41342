use crate::error::LedgerError;
use crate::identity::Identity;
use vstd::prelude::*;

verus! {

/// The set of teachers: the identities that may add and remove teachers and
/// issue grades.
///
/// The registry starts out empty and not yet initialized. Initialization
/// happens once and makes one identity a teacher; after that, teachers come
/// and go only through [`RoleRegistry::grant`] and [`RoleRegistry::revoke`].
/// A removed teacher leaves no trace: it is simply not in the set.
#[derive(Clone, Debug, PartialEq, Eq)]
pub struct RoleRegistry {
    initialized: bool,
    members: Vec<Identity>,
}

/// The set after `caller` asks to add `target`: only a member may add.
pub open spec fn grant_model(members: Set<Identity>, caller: Identity, target: Identity) -> Set<
    Identity,
> {
    if members.contains(caller) {
        members.insert(target)
    } else {
        members
    }
}

/// The set after `caller` asks to remove `target`: only a member may remove.
pub open spec fn revoke_model(members: Set<Identity>, caller: Identity, target: Identity) -> Set<
    Identity,
> {
    if members.contains(caller) {
        members.remove(target)
    } else {
        members
    }
}

/// A request to change the members.
pub enum RoleChange {
    /// Add the identity.
    Grant(Identity),
    /// Remove the identity.
    Revoke(Identity),
}

/// A request together with who makes it.
pub struct RoleCall {
    pub caller: Identity,
    pub change: RoleChange,
}

/// The members after one call to [`RoleRegistry::grant`] or
/// [`RoleRegistry::revoke`].
pub open spec fn role_step(members: Set<Identity>, call: RoleCall) -> Set<Identity> {
    match call.change {
        RoleChange::Grant(target) => grant_model(members, call.caller, target),
        RoleChange::Revoke(target) => revoke_model(members, call.caller, target),
    }
}

/// The members after a series of calls, made one after another.
pub open spec fn role_run(members: Set<Identity>, calls: Seq<RoleCall>) -> Set<Identity>
    decreases calls.len(),
{
    if calls.len() == 0 {
        members
    } else {
        role_step(role_run(members, calls.drop_last()), calls.last())
    }
}

/// A plain set after one change, whoever asks: granting inserts, revoking
/// deletes.
pub open spec fn plain_step(members: Set<Identity>, change: RoleChange) -> Set<Identity> {
    match change {
        RoleChange::Grant(target) => members.insert(target),
        RoleChange::Revoke(target) => members.remove(target),
    }
}

/// A plain set after a series of changes.
pub open spec fn plain_run(members: Set<Identity>, calls: Seq<RoleCall>) -> Set<Identity>
    decreases calls.len(),
{
    if calls.len() == 0 {
        members
    } else {
        plain_step(plain_run(members, calls.drop_last()), calls.last().change)
    }
}

/// Whether each call of a series is made by someone who is a member at the
/// time of that call.
pub open spec fn made_by_members(members: Set<Identity>, calls: Seq<RoleCall>) -> bool {
    forall|i: int|
        0 <= i < calls.len() ==> role_run(members, #[trigger] calls.take(i)).contains(
            calls[i].caller,
        )
}

/// Calls made by members act on the registry as insertion and deletion act on
/// a plain set: after any series of such calls the members are what the plain
/// set holds after the same changes.
pub proof fn lemma_members_follow_plain_set(members: Set<Identity>, calls: Seq<RoleCall>)
    requires
        made_by_members(members, calls),
    ensures
        role_run(members, calls) == plain_run(members, calls),
    decreases calls.len(),
{
    if calls.len() > 0 {
        let earlier = calls.drop_last();
        assert forall|i: int| 0 <= i < earlier.len() implies role_run(
            members,
            #[trigger] earlier.take(i),
        ).contains(earlier[i].caller) by {
            assert(earlier.take(i) =~= calls.take(i));
        }
        lemma_members_follow_plain_set(members, earlier);
        assert(calls.take(calls.len() - 1) =~= earlier);
    }
}

/// Granting twice is granting once, and revoking twice is revoking once.
pub proof fn lemma_changes_idempotent(members: Set<Identity>, caller: Identity, target: Identity)
    ensures
        grant_model(grant_model(members, caller, target), caller, target) == grant_model(
            members,
            caller,
            target,
        ),
        revoke_model(revoke_model(members, caller, target), caller, target) == revoke_model(
            members,
            caller,
            target,
        ),
{
    assert(members.insert(target).insert(target) =~= members.insert(target));
    assert(members.remove(target).remove(target) =~= members.remove(target));
}

impl View for RoleRegistry {
    type V = Set<Identity>;

    /// The current members.
    closed spec fn view(&self) -> Set<Identity> {
        self.members@.to_set()
    }
}

impl RoleRegistry {
    /// What every registry satisfies: no member is recorded twice, and before
    /// initialization there are no members. [`RoleRegistry::new`] establishes
    /// it and every operation keeps it.
    pub closed spec fn wf(&self) -> bool {
        &&& self.members@.no_duplicates()
        &&& !self.initialized ==> self.members@.len() == 0
    }

    /// Whether [`RoleRegistry::initialize`] has run.
    pub closed spec fn is_initialized(&self) -> bool {
        self.initialized
    }

    /// A registry that has not been initialized: nobody is a member.
    pub fn new() -> (registry: RoleRegistry)
        ensures
            registry.wf(),
            registry@ == Set::<Identity>::empty(),
            !registry.is_initialized(),
    {
        let registry = RoleRegistry { initialized: false, members: Vec::new() };
        assert(registry.members@.to_set() =~= Set::<Identity>::empty());
        registry
    }

    /// Whether initialization has happened.
    pub fn initialized(&self) -> (done: bool)
        ensures
            done == self.is_initialized(),
    {
        self.initialized
    }

    /// Makes `bootstrap` the one and only member. Works once; every later
    /// call is refused and changes nothing.
    pub fn initialize(&mut self, bootstrap: Identity) -> (result: Result<(), LedgerError>)
        requires
            old(self).wf(),
        ensures
            final(self).wf(),
            old(self).is_initialized() ==> result == Err::<(), LedgerError>(
                LedgerError::AlreadyInitialized,
            ) && *final(self) == *old(self),
            !old(self).is_initialized() ==> result.is_ok() && final(self).is_initialized()
                && final(self)@ == Set::<Identity>::empty().insert(bootstrap),
    {
        if self.initialized {
            return Err(LedgerError::AlreadyInitialized);
        }
        self.initialized = true;
        self.members.push(bootstrap);
        proof {
            let before = old(self).members@;
            before.lemma_push_to_set_commute(bootstrap);
            assert(before.to_set() =~= Set::<Identity>::empty());
        }
        Ok(())
    }

    /// Where `target` sits in the member list, if it is a member.
    fn position(&self, target: Identity) -> (found: Option<usize>)
        ensures
            match found {
                Some(i) => i < self.members@.len() && self.members@[i as int] == target,
                None => !self.members@.contains(target),
            },
    {
        let mut i: usize = 0;
        while i < self.members.len()
            invariant
                i <= self.members@.len(),
                forall|j: int| 0 <= j < i ==> self.members@[j] != target,
            decreases self.members@.len() - i,
        {
            if self.members[i] == target {
                return Some(i);
            }
            i += 1;
        }
        None
    }

    /// Whether `target` is a member. Anyone may ask.
    pub fn is_member(&self, target: Identity) -> (member: bool)
        ensures
            member == self@.contains(target),
    {
        self.position(target).is_some()
    }

    /// The number of members.
    pub fn member_count(&self) -> (count: usize)
        requires
            self.wf(),
        ensures
            count == self@.len(),
    {
        proof {
            self.members@.unique_seq_to_set();
        }
        self.members.len()
    }

    /// The members, each once, in no particular order.
    pub fn members(&self) -> (list: Vec<Identity>)
        requires
            self.wf(),
        ensures
            list@.no_duplicates(),
            list@.to_set() == self@,
    {
        let mut list: Vec<Identity> = Vec::new();
        let mut i: usize = 0;
        while i < self.members.len()
            invariant
                i <= self.members@.len(),
                list@ == self.members@.take(i as int),
            decreases self.members@.len() - i,
        {
            list.push(self.members[i]);
            assert(self.members@.take(i + 1) =~= self.members@.take(i as int).push(
                self.members@[i as int],
            ));
            i += 1;
        }
        assert(self.members@.take(i as int) =~= self.members@);
        list
    }

    /// Adds `target` to the members on behalf of `caller`.
    ///
    /// Only a member may add. Adding someone who is already a member succeeds
    /// and changes nothing.
    pub fn grant(&mut self, caller: Identity, target: Identity) -> (result: Result<
        (),
        LedgerError,
    >)
        requires
            old(self).wf(),
        ensures
            final(self).wf(),
            final(self)@ == grant_model(old(self)@, caller, target),
            final(self).is_initialized() == old(self).is_initialized(),
            old(self)@.contains(caller) ==> result.is_ok(),
            !old(self)@.contains(caller) ==> result == Err::<(), LedgerError>(
                LedgerError::Unauthorized,
            ) && *final(self) == *old(self),
    {
        if !self.is_member(caller) {
            return Err(LedgerError::Unauthorized);
        }
        if self.position(target).is_none() {
            self.members.push(target);
            proof {
                old(self).members@.lemma_push_to_set_commute(target);
            }
        } else {
            assert(old(self)@.insert(target) =~= old(self)@);
        }
        Ok(())
    }

    /// Removes `target` from the members on behalf of `caller`.
    ///
    /// Only a member may remove. Removing someone who is not a member succeeds
    /// and changes nothing. A member may remove anyone, itself included.
    pub fn revoke(&mut self, caller: Identity, target: Identity) -> (result: Result<
        (),
        LedgerError,
    >)
        requires
            old(self).wf(),
        ensures
            final(self).wf(),
            final(self)@ == revoke_model(old(self)@, caller, target),
            final(self).is_initialized() == old(self).is_initialized(),
            old(self)@.contains(caller) ==> result.is_ok(),
            !old(self)@.contains(caller) ==> result == Err::<(), LedgerError>(
                LedgerError::Unauthorized,
            ) && *final(self) == *old(self),
    {
        if !self.is_member(caller) {
            return Err(LedgerError::Unauthorized);
        }
        match self.position(target) {
            Some(i) => {
                self.members.remove(i);
                assert(self.members@.to_set() =~= old(self).members@.to_set().remove(target)) by {
                    let before = old(self).members@;
                    let after = self.members@;
                    assert(after =~= before.remove(i as int));
                    assert forall|x: Identity| after.contains(x) <==> (before.contains(x) && x
                        != target) by {
                        if after.contains(x) {
                            let k = choose|k: int| 0 <= k < after.len() && after[k] == x;
                            if k < i {
                                assert(before[k] == x);
                            } else {
                                assert(before[k + 1] == x);
                            }
                        }
                        if before.contains(x) && x != target {
                            let k = choose|k: int| 0 <= k < before.len() && before[k] == x;
                            if k < i {
                                assert(after[k] == x);
                            } else {
                                assert(after[k - 1] == x);
                            }
                        }
                    }
                }
            },
            None => {
                assert(old(self)@.remove(target) =~= old(self)@);
            },
        }
        Ok(())
    }
}

} // verus!
