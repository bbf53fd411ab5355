//! Records, phases, statuses, errors and events of the society protocol.
use vstd::prelude::*;

verus! {

/// Identity of a (pre-authenticated) caller.
pub type AccountId = u64;

/// Height of the scheduling clock.
pub type BlockNumber = u64;

/// Identifier of a society: any byte string.
pub type SocietyId = Vec<u8>;

/// A society: its founder, its ordered members (the order fixes each
/// member's slot), its threshold and its name.
#[derive(Debug)]
pub struct Society {
    pub founder: AccountId,
    pub members: Vec<AccountId>,
    pub threshold: u8,
    pub name: Vec<u8>,
}

/// The mathematical content of a [`Society`].
pub struct SocietyView {
    pub founder: AccountId,
    pub members: Seq<AccountId>,
    pub threshold: u8,
    pub name: Seq<u8>,
}

impl View for Society {
    type V = SocietyView;

    open spec fn view(&self) -> SocietyView {
        SocietyView {
            founder: self.founder,
            members: self.members@,
            threshold: self.threshold,
            name: self.name@,
        }
    }
}

/// The contents of a list of byte strings.
pub open spec fn byte_views(s: Seq<Vec<u8>>) -> Seq<Seq<u8>> {
    s.map_values(|v: Vec<u8>| v@)
}

/// Copies a byte string.
pub fn copy_bytes(b: &Vec<u8>) -> (r: Vec<u8>)
    ensures
        r@ == b@,
{
    let r = b.clone();
    assert(r@ =~= b@);
    r
}

/// Copies a list of accounts.
pub fn copy_accounts(a: &Vec<AccountId>) -> (r: Vec<AccountId>)
    ensures
        r@ == a@,
{
    let r = a.clone();
    assert(r@ =~= a@);
    r
}

/// Whether two byte strings are equal.
pub fn same_bytes(a: &Vec<u8>, b: &Vec<u8>) -> (r: bool)
    ensures
        r == (a@ == b@),
{
    if a.len() != b.len() {
        return false;
    }
    let mut i: usize = 0;
    while i < a.len()
        invariant
            i <= a@.len(),
            a@.len() == b@.len(),
            forall|j: int| 0 <= j < i ==> a@[j] == b@[j],
        decreases a@.len() - i,
    {
        if a[i] != b[i] {
            return false;
        }
        i = i + 1;
    }
    assert(a@ =~= b@);
    true
}

/// Whether two lists of accounts are equal.
pub fn same_accounts(a: &Vec<AccountId>, b: &Vec<AccountId>) -> (r: bool)
    ensures
        r == (a@ == b@),
{
    if a.len() != b.len() {
        return false;
    }
    let mut i: usize = 0;
    while i < a.len()
        invariant
            i <= a@.len(),
            a@.len() == b@.len(),
            forall|j: int| 0 <= j < i ==> a@[j] == b@[j],
        decreases a@.len() - i,
    {
        if a[i] != b[i] {
            return false;
        }
        i = i + 1;
    }
    assert(a@ =~= b@);
    true
}

impl Society {
    /// A copy of this society with the same content.
    pub fn duplicate(&self) -> (r: Society)
        ensures
            r@ == self@,
    {
        Society {
            founder: self.founder,
            members: copy_accounts(&self.members),
            threshold: self.threshold,
            name: copy_bytes(&self.name),
        }
    }

    /// Whether `who` is one of the members.
    pub fn has_member(&self, who: AccountId) -> (r: bool)
        ensures
            r == self@.members.contains(who),
    {
        let mut i: usize = 0;
        while i < self.members.len()
            invariant
                i <= self.members@.len(),
                forall|j: int| 0 <= j < i ==> self.members@[j] != who,
            decreases self.members@.len() - i,
        {
            if self.members[i] == who {
                return true;
            }
            i = i + 1;
        }
        false
    }
}

impl PartialEq for Society {
    fn eq(&self, o: &Society) -> (r: bool) {
        self.founder == o.founder && self.threshold == o.threshold && same_accounts(
            &self.members,
            &o.members,
        ) && same_bytes(&self.name, &o.name)
    }
}

impl vstd::std_specs::cmp::PartialEqSpecImpl for Society {
    open spec fn obeys_eq_spec() -> bool {
        true
    }

    open spec fn eq_spec(&self, o: &Society) -> bool {
        self@ == o@
    }
}

/// One share and its commitment, as a committing member hands them in.
#[derive(Debug)]
pub struct Share {
    pub share: Vec<u8>,
    pub commitment: Vec<u8>,
}

/// A share with its commitment, sent by `sender` for `recipient`.
#[derive(Debug)]
pub struct Capsule {
    pub recipient: AccountId,
    pub sender: AccountId,
    pub share: Vec<u8>,
    pub commitment: Vec<u8>,
}

/// A transfer request addressed to a society's wallet.
#[derive(Clone, Debug)]
pub struct TransactionRequest<AccountId, Balance> {
    pub recipient: AccountId,
    pub amount: Balance,
}

/// The phase of a society.
#[derive(Clone, Copy, Debug, PartialEq, Eq, Structural)]
pub enum Phase {
    Commit,
    Join,
    Active,
    Failed,
}

/// The status of an account within one society.
#[derive(Clone, Copy, Debug, PartialEq, Eq, Structural)]
pub enum MemberStatus {
    Invitee,
    Committed,
    Active,
}

/// Notifications that the operations record.
#[derive(Clone, Copy, Debug, PartialEq, Eq, Structural)]
pub enum Event {
    CreatedSociety,
    ClosedSociety,
    StartedSociety,
    CommitedToSociety,
    JoinedSociety,
}

/// Why an operation was refused.
#[derive(Clone, Copy, Debug, PartialEq, Eq, Structural)]
pub enum Error {
    SocietyAlreadyExists,
    InvalidPublicKey,
    NotMember,
    NotFounder,
    ThresholdNotReached,
    NotCommitPhase,
    NotJoinPhase,
    InvalidMembershipChange,
}

} // verus!
