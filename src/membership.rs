//! The membership tracker: the status that each account holds in each society.
use vstd::prelude::*;
use crate::table::{Table, TableKey};
use crate::types::{copy_bytes, same_bytes, AccountId, Error, MemberStatus, SocietyId};

verus! {

/// An (account, society) pair.
pub struct MemberKey {
    pub account: AccountId,
    pub society: SocietyId,
}

impl View for MemberKey {
    type V = (AccountId, Seq<u8>);

    open spec fn view(&self) -> (AccountId, Seq<u8>) {
        (self.account, self.society@)
    }
}

impl TableKey for MemberKey {
    fn same_key(&self, other: &MemberKey) -> (r: bool) {
        self.account == other.account && same_bytes(&self.society, &other.society)
    }
}

/// The status map after moving `who` in society `id` from `from` to `to`;
/// `None` where `who` does not hold `from` there.
pub open spec fn after_transition(
    m: Map<(AccountId, Seq<u8>), MemberStatus>,
    who: AccountId,
    id: Seq<u8>,
    from: MemberStatus,
    to: MemberStatus,
) -> Option<Map<(AccountId, Seq<u8>), MemberStatus>> {
    if m.contains_key((who, id)) && m[(who, id)] == from {
        Some(m.insert((who, id), to))
    } else {
        None
    }
}

/// Every member of `members` is an invitee of society `id`; the rest of `m` is kept.
pub open spec fn invited(
    m: Map<(AccountId, Seq<u8>), MemberStatus>,
    members: Seq<AccountId>,
    id: Seq<u8>,
) -> Map<(AccountId, Seq<u8>), MemberStatus> {
    Map::new(
        |k: (AccountId, Seq<u8>)| m.contains_key(k) || (k.1 == id && members.contains(k.0)),
        |k: (AccountId, Seq<u8>)|
            if k.1 == id && members.contains(k.0) {
                MemberStatus::Invitee
            } else {
                m[k]
            },
    )
}

/// For each (account, society) pair, the one status that the account holds
/// there, if any.
pub struct MembershipTracker {
    index: Table<MemberKey, MemberStatus>,
}

impl View for MembershipTracker {
    type V = Map<(AccountId, Seq<u8>), MemberStatus>;

    closed spec fn view(&self) -> Map<(AccountId, Seq<u8>), MemberStatus> {
        self.index.map()
    }
}

impl MembershipTracker {
    pub closed spec fn wf(&self) -> bool {
        self.index.wf()
    }

    /// A tracker in which nobody holds any status.
    pub fn new() -> (r: Self)
        ensures
            r.wf(),
            r@ == Map::<(AccountId, Seq<u8>), MemberStatus>::empty(),
    {
        MembershipTracker { index: Table::new() }
    }

    /// Makes every member of `members` an invitee of society `id`.
    pub fn invite_all(&mut self, members: &Vec<AccountId>, id: &SocietyId)
        requires
            old(self).wf(),
        ensures
            final(self).wf(),
            final(self)@ == invited(old(self)@, members@, id@),
    {
        let ghost m0 = self@;
        assert(invited(m0, members@.take(0), id@) =~= m0);
        let mut i: usize = 0;
        while i < members.len()
            invariant
                self.wf(),
                i <= members@.len(),
                self@ == invited(m0, members@.take(i as int), id@),
            decreases members@.len() - i,
        {
            self.grant(members[i], id, MemberStatus::Invitee);
            proof {
                let t0 = members@.take(i as int);
                let t1 = members@.take(i as int + 1);
                assert(t1 =~= t0.push(members@[i as int]));
                assert forall|a: AccountId| #[trigger] t1.contains(a) <==> t0.contains(a) || a
                    == members@[i as int] by {
                    if t1.contains(a) {
                        let j = choose|j: int| 0 <= j < t1.len() && t1[j] == a;
                        if j < t0.len() {
                            assert(t0[j] == a);
                        }
                    }
                    if t0.contains(a) {
                        let j = choose|j: int| 0 <= j < t0.len() && t0[j] == a;
                        assert(t1[j] == a);
                    }
                    if a == members@[i as int] {
                        assert(t1[i as int] == a);
                    }
                }
                assert(self@ =~= invited(m0, t1, id@));
            }
            i = i + 1;
        }
        assert(members@.take(members@.len() as int) =~= members@);
    }

    /// The status that `who` holds in society `id`, if any.
    pub fn status(&self, who: AccountId, id: &SocietyId) -> (r: Option<MemberStatus>)
        requires
            self.wf(),
        ensures
            r == (if self@.contains_key((who, id@)) {
                Some(self@[(who, id@)])
            } else {
                None
            }),
    {
        let key = MemberKey { account: who, society: copy_bytes(id) };
        match self.index.get(&key) {
            Some(s) => Some(*s),
            None => None,
        }
    }

    /// Gives `who` the status `status` in society `id`.
    pub fn grant(&mut self, who: AccountId, id: &SocietyId, status: MemberStatus)
        requires
            old(self).wf(),
        ensures
            final(self).wf(),
            final(self)@ == old(self)@.insert((who, id@), status),
    {
        self.index.insert(MemberKey { account: who, society: copy_bytes(id) }, status);
    }

    /// Moves `who` in society `id` from status `from` to status `to`.
    /// Fails, changing nothing, where `who` does not hold `from` there.
    pub fn transition(
        &mut self,
        who: AccountId,
        id: &SocietyId,
        from: MemberStatus,
        to: MemberStatus,
    ) -> (r: Result<(), Error>)
        requires
            old(self).wf(),
        ensures
            final(self).wf(),
            r is Ok <==> after_transition(old(self)@, who, id@, from, to) is Some,
            r is Ok ==> final(self)@ == after_transition(old(self)@, who, id@, from, to)->0,
            r is Err ==> r == Err::<(), Error>(Error::InvalidMembershipChange) && final(self)@
                == old(self)@,
    {
        match self.status(who, id) {
            Some(s) => {
                if s == from {
                    self.grant(who, id, to);
                    Ok(())
                } else {
                    Err(Error::InvalidMembershipChange)
                }
            },
            None => Err(Error::InvalidMembershipChange),
        }
    }

    /// The societies in which `who` holds status `status`.
    pub fn societies_with(&self, who: AccountId, status: MemberStatus) -> (r: Vec<SocietyId>)
        requires
            self.wf(),
        ensures
            forall|id: Seq<u8>|
                #![trigger self@.contains_key((who, id))]
                (exists|i: int| 0 <= i < r@.len() && #[trigger] r@[i]@ == id) <==> (
                self@.contains_key((who, id)) && self@[(who, id)] == status),
    {
        let mut r: Vec<SocietyId> = Vec::new();
        let mut i: usize = 0;
        while i < self.index.len()
            invariant
                self.wf(),
                i <= self.index.entry_seq().len(),
                forall|j: int|
                    0 <= j < r@.len() ==> self@.contains_key((who, #[trigger] r@[j]@)) && self@[(
                    who,
                    r@[j]@,
                )] == status,
                forall|j: int|
                    0 <= j < i && (#[trigger] self.index.entry_seq()[j]).0.account == who
                        && self.index.entry_seq()[j].1 == status ==> exists|k: int|
                        0 <= k < r@.len() && #[trigger] r@[k]@ == self.index.entry_seq()[j].0@.1,
            decreases self.index.entry_seq().len() - i,
        {
            let (key, s) = self.index.entry(i);
            if key.account == who && *s == status {
                let ghost before = r@;
                r.push(copy_bytes(&key.society));
                proof {
                    assert forall|j: int|
                        0 <= j < i + 1 && (#[trigger] self.index.entry_seq()[j]).0.account == who
                            && self.index.entry_seq()[j].1 == status implies exists|k: int|
                        0 <= k < r@.len() && #[trigger] r@[k]@
                            == self.index.entry_seq()[j].0@.1 by {
                        if j == i {
                            assert(r@[before.len() as int]@ == self.index.entry_seq()[j].0@.1);
                        } else {
                            let k = choose|k: int|
                                0 <= k < before.len() && #[trigger] before[k]@
                                    == self.index.entry_seq()[j].0@.1;
                            assert(r@[k] == before[k]);
                        }
                    }
                }
            }
            i = i + 1;
        }
        proof {
            assert forall|id: Seq<u8>|
                #![trigger self@.contains_key((who, id))]
                self@.contains_key((who, id)) && self@[(who, id)] == status implies exists|i: int|
                0 <= i < r@.len() && #[trigger] r@[i]@ == id by {
                let j = self.index.lemma_key_in_entries((who, id));
                assert(self.index.entry_seq()[j].0@.1 == id);
            }
        }
        r
    }
}

/// Moving a status forward and then back again restores the tracker:
/// a transition is undone only by the opposite transition.
pub proof fn lemma_transition_round_trip(
    m: Map<(AccountId, Seq<u8>), MemberStatus>,
    who: AccountId,
    id: Seq<u8>,
    from: MemberStatus,
    to: MemberStatus,
)
    requires
        after_transition(m, who, id, from, to) is Some,
    ensures
        after_transition(after_transition(m, who, id, from, to)->0, who, id, to, from) == Some(m),
{
    let m1 = m.insert((who, id), to);
    assert(m1.insert((who, id), from) =~= m);
}

/// A transition from a status that is not held fails; and once a member has
/// moved from `from` to a different `to`, the same transition fails again.
pub proof fn lemma_transition_not_repeatable(
    m: Map<(AccountId, Seq<u8>), MemberStatus>,
    who: AccountId,
    id: Seq<u8>,
    from: MemberStatus,
    to: MemberStatus,
)
    requires
        after_transition(m, who, id, from, to) is Some,
        from != to,
    ensures
        after_transition(after_transition(m, who, id, from, to)->0, who, id, from, to) is None,
{
}

} // verus!
