//! The society state machine: registry, stores, phases and the scheduler.
use vstd::prelude::*;
use crate::membership::{after_transition, invited, MembershipTracker};
use crate::model::{
    current_phase, empty_model, failed_is_last, holds, is_failed, is_member, join_outcome, quorum, tick_entries, after_tick,
    capsules_for, PalletModel, ACTIVATION_OFFSET,
};
use crate::crypto::{decodes_as_g2, g2_decodes};
use crate::table::Table;
use crate::types::{
    byte_views, copy_bytes, AccountId, BlockNumber, Capsule, Error, Event,
    MemberStatus, Phase,
    Share, Society, SocietyId, SocietyView,
};

verus! {

/// The state of all societies.
pub struct Pallet {
    block_number: BlockNumber,
    societies: Table<SocietyId, Society>,
    shares_and_commitments: Table<SocietyId, Vec<Capsule>>,
    rsvp: Table<SocietyId, Vec<(AccountId, Vec<u8>)>>,
    membership: MembershipTracker,
    society_status: Table<SocietyId, Vec<(BlockNumber, Phase)>>,
    signatures: Table<SocietyId, Vec<(AccountId, (Vec<u8>, Vec<u8>))>>,
    deadlines: Table<BlockNumber, Vec<SocietyId>>,
    events: Vec<Event>,
}

impl View for Pallet {
    type V = PalletModel;

    closed spec fn view(&self) -> PalletModel {
        PalletModel {
            block_number: self.block_number,
            societies: self.societies.map().map_values(|s: Society| s@),
            capsules: Map::new(
                |id: Seq<u8>| true,
                |id: Seq<u8>| self.shares_and_commitments.list(id).map_values(|c: Capsule| c@),
            ),
            rsvps: Map::new(
                |id: Seq<u8>| true,
                |id: Seq<u8>|
                    self.rsvp.list(id).map_values(|e: (AccountId, Vec<u8>)| (e.0, e.1@)),
            ),
            membership: self.membership@,
            phases: Map::new(|id: Seq<u8>| true, |id: Seq<u8>| self.society_status.list(id)),
            signatures: Map::new(
                |id: Seq<u8>| true,
                |id: Seq<u8>|
                    self.signatures.list(id).map_values(
                        |e: (AccountId, (Vec<u8>, Vec<u8>))| (e.0, e.1.0@, e.1.1@),
                    ),
            ),
            deadlines: Map::new(
                |h: BlockNumber| true,
                |h: BlockNumber| byte_views(self.deadlines.list(h)),
            ),
            events: self.events@,
        }
    }
}

/// The invariant of the state, over its model.
pub open spec fn model_wf(m: PalletModel) -> bool {
    &&& forall|id: Seq<u8>| #[trigger]
        m.societies.contains_key(id) <==> m.phases[id].len() > 0
    &&& forall|id: Seq<u8>| #[trigger]
        m.societies.contains_key(id) ==> m.societies[id].threshold > 0
    &&& forall|id: Seq<u8>| #[trigger] failed_is_last(m.phases[id])
    &&& forall|h: BlockNumber, i: int|
        0 <= i < m.deadlines[h].len() ==> m.societies.contains_key(#[trigger] m.deadlines[h][i])
    &&& forall|h: BlockNumber| #[trigger] m.deadlines[h].no_duplicates()
}

impl Pallet {
    /// The invariant: the tables are well formed and the model obeys [`model_wf`].
    pub closed spec fn wf(&self) -> bool {
        &&& self.societies.wf()
        &&& self.shares_and_commitments.wf()
        &&& self.rsvp.wf()
        &&& self.membership.wf()
        &&& self.society_status.wf()
        &&& self.signatures.wf()
        &&& self.deadlines.wf()
        &&& model_wf(self@)
    }

    /// A state with no society, at height 0.
    pub fn new() -> (r: Pallet)
        ensures
            r.wf(),
            r@ == empty_model(),
    {
        let r = Pallet {
            block_number: 0,
            societies: Table::new(),
            shares_and_commitments: Table::new(),
            rsvp: Table::new(),
            membership: MembershipTracker::new(),
            society_status: Table::new(),
            signatures: Table::new(),
            deadlines: Table::new(),
            events: Vec::new(),
        };
        proof {
            let e = empty_model();
            assert(r@.societies =~= e.societies);
            assert forall|id: Seq<u8>| #[trigger] r@.capsules[id] =~= e.capsules[id] by {}
            assert forall|id: Seq<u8>| #[trigger] r@.rsvps[id] =~= e.rsvps[id] by {}
            assert forall|id: Seq<u8>| #[trigger] r@.signatures[id] =~= e.signatures[id] by {}
            assert forall|h: BlockNumber| #[trigger] r@.deadlines[h] =~= e.deadlines[h] by {}
            assert(r@.capsules =~= e.capsules);
            assert(r@.rsvps =~= e.rsvps);
            assert(r@.phases =~= e.phases);
            assert(r@.signatures =~= e.signatures);
            assert(r@.deadlines =~= e.deadlines);
            assert(r@.events =~= e.events);
        }
        r
    }
}

/// `threshold * member_count`, without overflow.
fn required_count(threshold: u8, member_count: usize) -> (r: u128)
    ensures
        r == threshold as int * member_count as int,
{
    proof {
        assert(threshold as int * member_count as int <= 256 * 0x1_0000_0000_0000_0000) by (
        nonlinear_arith)
            requires
                threshold <= 255,
                member_count <= 0xffff_ffff_ffff_ffff,
        ;
    }
    threshold as u128 * member_count as u128
}

impl Pallet {
    /// Appends `(h, phase)` to the history of society `id`.
    fn push_phase(&mut self, id: &SocietyId, h: BlockNumber, phase: Phase)
        requires
            old(self).wf(),
            old(self)@.societies.contains_key(id@),
            !is_failed(old(self)@.phases[id@]),
        ensures
            final(self).wf(),
            final(self)@ == (PalletModel {
                phases: old(self)@.phases.insert(id@, old(self)@.phases[id@].push((h, phase))),
                ..old(self)@
            }),
    {
        let ghost m = self@;
        self.society_status.append(copy_bytes(id), (h, phase));
        proof {
            let expected = m.phases.insert(id@, m.phases[id@].push((h, phase)));
            assert forall|j: Seq<u8>| #[trigger] self@.phases[j] == expected[j] by {
                if j != id@ {
                    assert(self.society_status.list(j) == old(self).society_status.list(j));
                }
            }
            assert(self@.phases =~= expected);
            assert forall|j: Seq<u8>| #[trigger] failed_is_last(self@.phases[j]) by {
                if j == id@ {
                    let hs = self@.phases[j];
                    assert(failed_is_last(m.phases[j]));
                    assert forall|i: int| 0 <= i < hs.len() - 1 implies (#[trigger] hs[i]).1
                        != Phase::Failed by {
                        assert(hs[i] == m.phases[j][i]);
                        if i < m.phases[j].len() - 1 {
                            assert(m.phases[j][i].1 != Phase::Failed);
                        }
                    }
                } else {
                    assert(failed_is_last(m.phases[j]));
                }
            }
            assert forall|j: Seq<u8>| #[trigger]
                self@.societies.contains_key(j) <==> self@.phases[j].len() > 0 by {
                assert(m.societies.contains_key(j) <==> m.phases[j].len() > 0);
            }
        }
    }

    /// The commit gate: where society `society_id` holds at least
    /// [`quorum`] capsules, appends `(block_number, Join)` to its history;
    /// otherwise fails with `ThresholdNotReached` and changes nothing.
    pub fn try_set_join(&mut self, block_number: BlockNumber, society_id: SocietyId) -> (r: Result<
        (),
        Error,
    >)
        requires
            old(self).wf(),
            old(self)@.societies.contains_key(society_id@),
            !is_failed(old(self)@.phases[society_id@]),
        ensures
            final(self).wf(),
            r is Ok <==> old(self)@.capsules[society_id@].len() >= quorum(
                old(self)@.societies[society_id@],
            ),
            r is Ok ==> final(self)@ == (PalletModel {
                phases: old(self)@.phases.insert(
                    society_id@,
                    old(self)@.phases[society_id@].push((block_number, Phase::Join)),
                ),
                ..old(self)@
            }),
            r is Err ==> r == Err::<(), Error>(Error::ThresholdNotReached) && final(self)@ == old(
                self,
            )@,
    {
        let required: u128 = match self.societies.get(&society_id) {
            Some(s) => required_count(s.threshold, s.members.len()),
            None => 0,
        };
        let count = self.shares_and_commitments.list_len(&society_id);
        if (count as u128) < required {
            return Err(Error::ThresholdNotReached);
        }
        self.push_phase(&society_id, block_number, Phase::Join);
        Ok(())
    }

    /// The activation gate: where society `society_id` holds at least
    /// [`quorum`] public-key submissions, appends `(block_number, Active)` to
    /// its history; otherwise fails with `ThresholdNotReached` and changes
    /// nothing.
    pub fn try_set_commit(&mut self, block_number: BlockNumber, society_id: SocietyId) -> (r:
        Result<(), Error>)
        requires
            old(self).wf(),
            old(self)@.societies.contains_key(society_id@),
            !is_failed(old(self)@.phases[society_id@]),
        ensures
            final(self).wf(),
            r is Ok <==> old(self)@.rsvps[society_id@].len() >= quorum(
                old(self)@.societies[society_id@],
            ),
            r is Ok ==> final(self)@ == (PalletModel {
                phases: old(self)@.phases.insert(
                    society_id@,
                    old(self)@.phases[society_id@].push((block_number, Phase::Active)),
                ),
                ..old(self)@
            }),
            r is Err ==> r == Err::<(), Error>(Error::ThresholdNotReached) && final(self)@ == old(
                self,
            )@,
    {
        let required: u128 = match self.societies.get(&society_id) {
            Some(s) => required_count(s.threshold, s.members.len()),
            None => 0,
        };
        let count = self.rsvp.list_len(&society_id);
        if (count as u128) < required {
            return Err(Error::ThresholdNotReached);
        }
        self.push_phase(&society_id, block_number, Phase::Active);
        Ok(())
    }

    /// Checks that society `society_id` is in phase `phase`, one of the two
    /// phases in which members submit: fails with `NotCommitPhase` or
    /// `NotJoinPhase` where its current phase is another one, or where it
    /// has no history at all.
    pub fn check_society_phase(&self, society_id: &SocietyId, phase: Phase) -> (r: Result<
        (),
        Error,
    >)
        requires
            self.wf(),
            phase == Phase::Commit || phase == Phase::Join,
        ensures
            r is Ok <==> current_phase(self@.phases[society_id@]) == Some(phase),
            r is Err ==> r == (if phase == Phase::Commit {
                Err::<(), Error>(Error::NotCommitPhase)
            } else {
                Err::<(), Error>(Error::NotJoinPhase)
            }),
    {
        if self.phase_of(society_id) == Some(phase) {
            Ok(())
        } else if phase == Phase::Commit {
            Err(Error::NotCommitPhase)
        } else {
            Err(Error::NotJoinPhase)
        }
    }

    /// The society `society_id`, where `who` is one of its members;
    /// otherwise `NotMember`.
    pub fn try_get_society(&self, society_id: &SocietyId, who: AccountId) -> (r: Result<
        Society,
        Error,
    >)
        requires
            self.wf(),
        ensures
            r is Ok <==> self@.societies.contains_key(society_id@)
                && self@.societies[society_id@].members.contains(who),
            r matches Ok(s) ==> s@ == self@.societies[society_id@],
            r matches Err(e) ==> e == Error::NotMember,
    {
        match self.societies.get(society_id) {
            Some(s) => if s.has_member(who) {
                Ok(s.duplicate())
            } else {
                Err(Error::NotMember)
            },
            None => Err(Error::NotMember),
        }
    }

    /// Moves `who` in society `society_id` from `old_status` to
    /// `new_status`; fails with `InvalidMembershipChange`, changing nothing,
    /// where `who` does not hold `old_status` there.
    pub fn update_membership(
        &mut self,
        who: AccountId,
        society_id: &SocietyId,
        old_status: MemberStatus,
        new_status: MemberStatus,
    ) -> (r: Result<(), Error>)
        requires
            old(self).wf(),
        ensures
            final(self).wf(),
            r is Ok <==> after_transition(
                old(self)@.membership,
                who,
                society_id@,
                old_status,
                new_status,
            ) is Some,
            r is Ok ==> final(self)@ == (PalletModel {
                membership: after_transition(
                    old(self)@.membership,
                    who,
                    society_id@,
                    old_status,
                    new_status,
                )->0,
                ..old(self)@
            }),
            r is Err ==> r == Err::<(), Error>(Error::InvalidMembershipChange) && final(self)@
                == old(self)@,
    {
        self.membership.transition(who, society_id, old_status, new_status)
    }
}

impl Pallet {
    /// Registers society `society_id`, founded by `caller`, whose threshold
    /// must be positive: stores it,
    /// makes every member an invitee, starts its history with
    /// `(current height, Commit)` and makes it due at height `deadline`.
    /// Fails with `SocietyAlreadyExists`, changing nothing, where the
    /// identifier is taken.
    pub fn create(
        &mut self,
        caller: AccountId,
        society_id: SocietyId,
        threshold: u8,
        name: Vec<u8>,
        deadline: BlockNumber,
        members: Vec<AccountId>,
    ) -> (r: Result<(), Error>)
        requires
            old(self).wf(),
            old(self)@.societies.contains_key(society_id@) || threshold > 0,
        ensures
            final(self).wf(),
            old(self)@.societies.contains_key(society_id@) ==> r == Err::<(), Error>(
                Error::SocietyAlreadyExists,
            ) && final(self)@ == old(self)@,
            !old(self)@.societies.contains_key(society_id@) ==> r is Ok && final(self)@ == (
            PalletModel {
                societies: old(self)@.societies.insert(
                    society_id@,
                    SocietyView { founder: caller, members: members@, threshold, name: name@ },
                ),
                membership: invited(old(self)@.membership, members@, society_id@),
                phases: old(self)@.phases.insert(
                    society_id@,
                    seq![(old(self)@.block_number, Phase::Commit)],
                ),
                deadlines: old(self)@.deadlines.insert(
                    deadline,
                    old(self)@.deadlines[deadline].push(society_id@),
                ),
                events: old(self)@.events.push(Event::CreatedSociety),
                ..old(self)@
            }),
            r is Ok ==> final(self)@.phases[society_id@] == seq![
                (old(self)@.block_number, Phase::Commit),
            ] && final(self)@.deadlines[deadline].contains(society_id@) && forall|who: AccountId|
                #[trigger] members@.contains(who) ==> final(self)@.membership.contains_key(
                    (who, society_id@),
                ) && final(self)@.membership[(who, society_id@)] == MemberStatus::Invitee,
    {
        if self.societies.get(&society_id).is_some() {
            return Err(Error::SocietyAlreadyExists);
        }
        let ghost m = self@;
        let ghost id = society_id@;
        let current_block_number = self.block_number;
        self.membership.invite_all(&members, &society_id);
        self.societies.insert(
            copy_bytes(&society_id),
            Society { founder: caller, members, threshold, name },
        );
        self.society_status.append(
            copy_bytes(&society_id),
            (current_block_number, Phase::Commit),
        );
        self.deadlines.append(deadline, copy_bytes(&society_id));
        self.events.push(Event::CreatedSociety);
        proof {
            let m2 = self@;
            assert(m2.societies =~= m.societies.insert(
                id,
                SocietyView { founder: caller, members: members@, threshold, name: name@ },
            ));
            let ph = m.phases.insert(id, seq![(m.block_number, Phase::Commit)]);
            assert forall|j: Seq<u8>| #[trigger] m2.phases[j] == ph[j] by {
                if j == id {
                    assert(!m.societies.contains_key(j));
                    assert(m.phases[j].len() == 0);
                    assert(m2.phases[j] =~= ph[j]);
                } else {
                    assert(self.society_status.list(j) == old(self).society_status.list(j));
                }
            }
            assert(m2.phases =~= ph);
            let dl = m.deadlines.insert(deadline, m.deadlines[deadline].push(id));
            assert forall|h: BlockNumber| #[trigger] m2.deadlines[h] == dl[h] by {
                if h == deadline {
                    assert(m2.deadlines[h] =~= dl[h]);
                } else {
                    assert(self.deadlines.list(h) == old(self).deadlines.list(h));
                }
            }
            assert(m2.deadlines =~= dl);
            assert(m2.deadlines[deadline].last() == id);
            assert forall|j: Seq<u8>| #[trigger]
                m2.societies.contains_key(j) <==> m2.phases[j].len() > 0 by {
                assert(m.societies.contains_key(j) <==> m.phases[j].len() > 0);
            }
            assert forall|j: Seq<u8>| #[trigger]
                m2.societies.contains_key(j) implies m2.societies[j].threshold > 0 by {
                if j != id {
                    assert(m.societies.contains_key(j));
                }
            }
            assert forall|j: Seq<u8>| #[trigger] failed_is_last(m2.phases[j]) by {
                if j != id {
                    assert(failed_is_last(m.phases[j]));
                }
            }
            assert forall|h: BlockNumber, i: int|
                0 <= i < m2.deadlines[h].len() implies m2.societies.contains_key(
                #[trigger] m2.deadlines[h][i],
            ) by {
                if h != deadline || i < m.deadlines[h].len() {
                    assert(m2.deadlines[h][i] == m.deadlines[h][i]);
                    assert(m.societies.contains_key(m.deadlines[h][i]));
                }
            }
            assert forall|h: BlockNumber| #[trigger] m2.deadlines[h].no_duplicates() by {
                assert(m.deadlines[h].no_duplicates());
                if h == deadline {
                    assert forall|i: int| 0 <= i < m.deadlines[h].len() implies #[trigger] m.deadlines[h][i] != id by {
                        assert(m.societies.contains_key(m.deadlines[h][i]));
                    }
                }
            }
            assert forall|who: AccountId| #[trigger] members@.contains(who) implies m2.membership.contains_key(
                (who, id),
            ) && m2.membership[(who, id)] == MemberStatus::Invitee by {}
        }
        Ok(())
    }
}

impl Pallet {
    /// Appends capsule `c` to the capsules of society `id`.
    fn append_capsule(&mut self, id: &SocietyId, c: Capsule)
        requires
            old(self).wf(),
        ensures
            final(self).wf(),
            final(self)@ == (PalletModel {
                capsules: old(self)@.capsules.insert(id@, old(self)@.capsules[id@].push(c@)),
                ..old(self)@
            }),
    {
        let ghost m = self@;
        let ghost cv = c@;
        self.shares_and_commitments.append(copy_bytes(id), c);
        proof {
            let expected = m.capsules.insert(id@, m.capsules[id@].push(cv));
            assert forall|j: Seq<u8>| #[trigger] self@.capsules[j] == expected[j] by {
                if j == id@ {
                    assert(self@.capsules[j] =~= expected[j]);
                } else {
                    assert(self.shares_and_commitments.list(j)
                        == old(self).shares_and_commitments.list(j));
                }
            }
            assert(self@.capsules =~= expected);
        }
    }

    /// Stores the capsules that `who` sends to the members of society `id`.
    fn store_capsules(
        &mut self,
        who: AccountId,
        id: &SocietyId,
        members: &Vec<AccountId>,
        shares: &Vec<Share>,
    )
        requires
            old(self).wf(),
        ensures
            final(self).wf(),
            final(self)@ == (PalletModel {
                capsules: old(self)@.capsules.insert(
                    id@,
                    old(self)@.capsules[id@] + capsules_for(members@, who, shares@),
                ),
                ..old(self)@
            }),
    {
        let ghost m = self@;
        let ghost all = capsules_for(members@, who, shares@);
        assert(m.capsules.insert(id@, m.capsules[id@] + all.take(0)) =~= m.capsules);
        let mut i: usize = 0;
        while i < members.len() && i < shares.len()
            invariant
                self.wf(),
                i <= members@.len(),
                i <= shares@.len(),
                all == capsules_for(members@, who, shares@),
                self@ == (PalletModel {
                    capsules: m.capsules.insert(id@, m.capsules[id@] + all.take(i as int)),
                    ..m
                }),
            decreases members@.len() - i,
        {
            let c = Capsule {
                recipient: members[i],
                sender: who,
                share: copy_bytes(&shares[i].share),
                commitment: copy_bytes(&shares[i].commitment),
            };
            self.append_capsule(id, c);
            proof {
                assert(m.capsules[id@] + all.take(i + 1) =~= (m.capsules[id@] + all.take(
                    i as int,
                )).push(all[i as int]));
                assert(m.capsules.insert(id@, m.capsules[id@] + all.take(i + 1)) =~= m.capsules.insert(
                    id@,
                    m.capsules[id@] + all.take(i as int),
                ).insert(id@, (m.capsules[id@] + all.take(i as int)).push(all[i as int])));
            }
            i = i + 1;
        }
        assert(all.take(i as int) =~= all);
    }

    /// A member submits shares and commitments: the i-th share goes to the
    /// i-th member, and `who` moves from `Invitee` to `Committed`. Fails,
    /// changing nothing, with `NotMember` where `who` is not a member of a
    /// registered society `society_id`, then with `NotCommitPhase` outside the
    /// Commit phase, then with `InvalidMembershipChange` where `who` is not an
    /// invitee.
    pub fn commit(&mut self, who: AccountId, society_id: SocietyId, shares_and_commitments: Vec<
        Share,
    >) -> (r: Result<(), Error>)
        requires
            old(self).wf(),
        ensures
            final(self).wf(),
            !is_member(old(self)@, society_id@, who) ==> r == Err::<(), Error>(Error::NotMember),
            is_member(old(self)@, society_id@, who) && current_phase(
                old(self)@.phases[society_id@],
            ) != Some(Phase::Commit) ==> r == Err::<(), Error>(Error::NotCommitPhase),
            is_member(old(self)@, society_id@, who) && current_phase(
                old(self)@.phases[society_id@],
            ) == Some(Phase::Commit) && !holds(old(self)@, who, society_id@, MemberStatus::Invitee)
                ==> r == Err::<(), Error>(Error::InvalidMembershipChange),
            r is Err ==> final(self)@ == old(self)@,
            is_member(old(self)@, society_id@, who) && current_phase(
                old(self)@.phases[society_id@],
            ) == Some(Phase::Commit) && holds(old(self)@, who, society_id@, MemberStatus::Invitee)
                ==> r is Ok && final(self)@ == (PalletModel {
                capsules: old(self)@.capsules.insert(
                    society_id@,
                    old(self)@.capsules[society_id@] + capsules_for(
                        old(self)@.societies[society_id@].members,
                        who,
                        shares_and_commitments@,
                    ),
                ),
                membership: old(self)@.membership.insert(
                    (who, society_id@),
                    MemberStatus::Committed,
                ),
                events: old(self)@.events.push(Event::CommitedToSociety),
                ..old(self)@
            }),
    {
        let society = match self.try_get_society(&society_id, who) {
            Ok(s) => s,
            Err(e) => return Err(e),
        };
        match self.check_society_phase(&society_id, Phase::Commit) {
            Ok(()) => {},
            Err(e) => return Err(e),
        }
        match self.membership.status(who, &society_id) {
            Some(MemberStatus::Invitee) => {},
            _ => return Err(Error::InvalidMembershipChange),
        }
        self.store_capsules(who, &society_id, &society.members, &shares_and_commitments);
        let _ = self.update_membership(
            who,
            &society_id,
            MemberStatus::Invitee,
            MemberStatus::Committed,
        );
        self.events.push(Event::CommitedToSociety);
        Ok(())
    }

    /// A member publishes its public key, given whether the key decodes as
    /// a compressed G2 point; the outcome is [`join_outcome`].
    pub fn join_decoded(
        &mut self,
        who: AccountId,
        society_id: SocietyId,
        compressed_g2: Vec<u8>,
        key_decodes: bool,
    ) -> (r: Result<(), Error>)
        requires
            old(self).wf(),
        ensures
            final(self).wf(),
            (r, final(self)@) == join_outcome(
                old(self)@,
                who,
                society_id@,
                compressed_g2@,
                key_decodes,
            ),
    {
        let ghost m = self@;
        match self.try_get_society(&society_id, who) {
            Ok(_) => {},
            Err(e) => return Err(e),
        }
        match self.check_society_phase(&society_id, Phase::Commit) {
            Ok(()) => {},
            Err(e) => return Err(e),
        }
        if !key_decodes {
            return Err(Error::InvalidPublicKey);
        }
        match self.membership.status(who, &society_id) {
            Some(MemberStatus::Committed) => {},
            _ => return Err(Error::InvalidMembershipChange),
        }
        let ghost key = compressed_g2@;
        self.rsvp.append(copy_bytes(&society_id), (who, compressed_g2));
        proof {
            let expected = m.rsvps.insert(society_id@, m.rsvps[society_id@].push((who, key)));
            assert forall|j: Seq<u8>| #[trigger] self@.rsvps[j] == expected[j] by {
                if j == society_id@ {
                    assert(self@.rsvps[j] =~= expected[j]);
                } else {
                    assert(self.rsvp.list(j) == old(self).rsvp.list(j));
                }
            }
            assert(self@.rsvps =~= expected);
        }
        let _ = self.update_membership(
            who,
            &society_id,
            MemberStatus::Committed,
            MemberStatus::Active,
        );
        self.events.push(Event::JoinedSociety);
        Ok(())
    }

    /// A member publishes its public key `compressed_g2`: the key must
    /// decode as a compressed BLS12-381 G2 point, the member must be
    /// `Committed` and the society in the Commit phase; the outcome is
    /// [`join_outcome`].
    pub fn join(&mut self, who: AccountId, society_id: SocietyId, compressed_g2: Vec<u8>) -> (r:
        Result<(), Error>)
        requires
            old(self).wf(),
        ensures
            final(self).wf(),
            (r, final(self)@) == join_outcome(
                old(self)@,
                who,
                society_id@,
                compressed_g2@,
                g2_decodes(compressed_g2@),
            ),
    {
        let key_decodes = decodes_as_g2(&compressed_g2);
        self.join_decoded(who, society_id, compressed_g2, key_decodes)
    }

    /// Records a signature submission of `who` for society `society_id`;
    /// nothing about it is checked.
    pub fn submit_signature(
        &mut self,
        who: AccountId,
        society_id: SocietyId,
        prover_response: Vec<u8>,
        verifier_challenge: Vec<u8>,
    ) -> (r: Result<(), Error>)
        requires
            old(self).wf(),
        ensures
            final(self).wf(),
            r is Ok,
            final(self)@ == (PalletModel {
                signatures: old(self)@.signatures.insert(
                    society_id@,
                    old(self)@.signatures[society_id@].push(
                        (who, prover_response@, verifier_challenge@),
                    ),
                ),
                ..old(self)@
            }),
    {
        let ghost m = self@;
        let ghost entry = (who, prover_response@, verifier_challenge@);
        let ghost id = society_id@;
        self.signatures.append(society_id, (who, (prover_response, verifier_challenge)));
        proof {
            let expected = m.signatures.insert(id, m.signatures[id].push(entry));
            assert forall|j: Seq<u8>| #[trigger] self@.signatures[j] == expected[j] by {
                if j == id {
                    assert(self@.signatures[j] =~= expected[j]);
                } else {
                    assert(self.signatures.list(j) == old(self).signatures.list(j));
                }
            }
            assert(self@.signatures =~= expected);
        }
        Ok(())
    }
}

impl Pallet {
    /// The phase that society `society_id` is in, if it is registered.
    pub fn phase_of(&self, society_id: &SocietyId) -> (r: Option<Phase>)
        requires
            self.wf(),
        ensures
            r == current_phase(self@.phases[society_id@]),
    {
        match self.society_status.get(society_id) {
            Some(h) => if h.len() > 0 {
                Some(h[h.len() - 1].1)
            } else {
                None
            },
            None => None,
        }
    }

    /// The societies due for evaluation at height `h`, in registration order.
    pub fn deadlines(&self, h: BlockNumber) -> (r: Vec<SocietyId>)
        requires
            self.wf(),
        ensures
            byte_views(r@) == self@.deadlines[h],
    {
        let mut r: Vec<SocietyId> = Vec::new();
        match self.deadlines.get(&h) {
            Some(src) => {
                let mut i: usize = 0;
                while i < src.len()
                    invariant
                        i <= src@.len(),
                        r@.len() == i,
                        byte_views(r@) =~= byte_views(src@.take(i as int)),
                    decreases src@.len() - i,
                {
                    let ghost before = r@;
                    r.push(copy_bytes(&src[i]));
                    proof {
                        assert forall|j: int| 0 <= j < r@.len() implies #[trigger] byte_views(r@)[j]
                            == byte_views(src@.take(i + 1))[j] by {
                            if j < i {
                                assert(r@[j] == before[j]);
                                assert(byte_views(before)[j] == byte_views(src@.take(i as int))[j]);
                            }
                        }
                    }
                    i = i + 1;
                    assert(byte_views(r@) =~= byte_views(src@.take(i as int)));
                }
                assert(src@.take(i as int) =~= src@);
            },
            None => {
                assert(byte_views(r@) =~= self@.deadlines[h]);
            },
        }
        r
    }

    /// Evaluates the due society `id` at height `n`: its history gains
    /// [`tick_entries`].
    fn evaluate(&mut self, n: BlockNumber, id: &SocietyId)
        requires
            old(self).wf(),
            old(self)@.societies.contains_key(id@),
        ensures
            final(self).wf(),
            final(self)@ == (PalletModel {
                phases: old(self)@.phases.insert(
                    id@,
                    old(self)@.phases[id@] + tick_entries(old(self)@, n, id@),
                ),
                ..old(self)@
            }),
    {
        let ghost m = self@;
        let ghost h = m.phases[id@];
        if self.phase_of(id) == Some(Phase::Failed) {
            assert(h + tick_entries(m, n, id@) =~= h);
            assert(m.phases.insert(id@, h) =~= m.phases);
            return;
        }
        match self.try_set_join(n, copy_bytes(id)) {
            Err(_) => {
                self.push_phase(id, n, Phase::Failed);
                assert(h.push((n, Phase::Failed)) =~= h + tick_entries(m, n, id@));
                assert(self@.phases =~= m.phases.insert(id@, h + tick_entries(m, n, id@)));
            },
            Ok(()) => {
                if n > ACTIVATION_OFFSET {
                    let label = n - ACTIVATION_OFFSET;
                    match self.try_set_commit(label, copy_bytes(id)) {
                        Err(_) => {
                            self.push_phase(id, label, Phase::Failed);
                            assert(h.push((n, Phase::Join)).push((label, Phase::Failed)) =~= h
                                + tick_entries(m, n, id@));
                            assert(self@.phases =~= m.phases.insert(
                                id@,
                                h + tick_entries(m, n, id@),
                            ));
                        },
                        Ok(()) => {
                            assert(h.push((n, Phase::Join)).push((label, Phase::Active)) =~= h
                                + tick_entries(m, n, id@));
                            assert(self@.phases =~= m.phases.insert(
                                id@,
                                h + tick_entries(m, n, id@),
                            ));
                        },
                    }
                } else {
                    assert(h.push((n, Phase::Join)) =~= h + tick_entries(m, n, id@));
                    assert(self@.phases =~= m.phases.insert(id@, h + tick_entries(m, n, id@)));
                }
            },
        }
    }

    /// The scheduler tick at height `n`: takes a snapshot of the societies
    /// due at `n` and evaluates each in turn; the result is [`after_tick`].
    pub fn on_initialize(&mut self, n: BlockNumber)
        requires
            old(self).wf(),
        ensures
            final(self).wf(),
            final(self)@ == after_tick(old(self)@, n),
    {
        let due = self.deadlines(n);
        let ghost m = self@;
        let ghost ids = m.deadlines[n];
        assert(ids.no_duplicates());
        let mut i: usize = 0;
        assert(Map::new(
            |id: Seq<u8>| true,
            |id: Seq<u8>|
                if ids.take(0).contains(id) {
                    m.phases[id] + tick_entries(m, n, id)
                } else {
                    m.phases[id]
                },
        ) =~= m.phases);
        while i < due.len()
            invariant
                self.wf(),
                i <= due@.len(),
                byte_views(due@) == ids,
                ids == m.deadlines[n],
                ids.no_duplicates(),
                model_wf(m),
                self@ == (PalletModel {
                    phases: Map::new(
                        |id: Seq<u8>| true,
                        |id: Seq<u8>|
                            if ids.take(i as int).contains(id) {
                                m.phases[id] + tick_entries(m, n, id)
                            } else {
                                m.phases[id]
                            },
                    ),
                    ..m
                }),
            decreases due@.len() - i,
        {
            let ghost before = self@;
            let ghost id = ids[i as int];
            assert(due@[i as int]@ == id);
            assert(m.societies.contains_key(ids[i as int]));
            assert(!ids.take(i as int).contains(id)) by {
                if ids.take(i as int).contains(id) {
                    let j = choose|j: int| 0 <= j < i && ids.take(i as int)[j] == id;
                    assert(ids[j] == ids[i as int]);
                }
            }
            assert(tick_entries(before, n, id) == tick_entries(m, n, id));
            self.evaluate(n, &due[i]);
            proof {
                let t0 = ids.take(i as int);
                let t1 = ids.take(i as int + 1);
                assert(t1 =~= t0.push(id));
                assert forall|a: Seq<u8>| #[trigger] t1.contains(a) <==> t0.contains(a) || a == id by {
                    if t1.contains(a) {
                        let j = choose|j: int| 0 <= j < t1.len() && t1[j] == a;
                        if j < t0.len() {
                            assert(t0[j] == a);
                        }
                    }
                    if t0.contains(a) {
                        let j = choose|j: int| 0 <= j < t0.len() && t0[j] == a;
                        assert(t1[j] == a);
                    }
                    if a == id {
                        assert(t1[i as int] == a);
                    }
                }
                assert(self@.phases =~= Map::new(
                    |id: Seq<u8>| true,
                    |id: Seq<u8>|
                        if t1.contains(id) {
                            m.phases[id] + tick_entries(m, n, id)
                        } else {
                            m.phases[id]
                        },
                ));
            }
            i = i + 1;
        }
        assert(ids.take(i as int) =~= ids);
        assert(self@.phases =~= after_tick(m, n).phases);
    }
}

impl Pallet {
    /// Every history of a well-formed state keeps `Failed` last, and a
    /// society has a history exactly when it is registered.
    pub proof fn lemma_phase_invariant(&self, id: Seq<u8>)
        requires
            self.wf(),
        ensures
            failed_is_last(self@.phases[id]),
            self@.societies.contains_key(id) <==> self@.phases[id].len() > 0,
    {
    }

    /// The current height.
    pub fn block_number(&self) -> (r: BlockNumber)
        ensures
            r == self@.block_number,
    {
        self.block_number
    }

    /// Moves the clock to height `n`.
    pub fn set_block_number(&mut self, n: BlockNumber)
        requires
            old(self).wf(),
        ensures
            final(self).wf(),
            final(self)@ == (PalletModel { block_number: n, ..old(self)@ }),
    {
        self.block_number = n;
    }

    /// A copy of society `society_id`, if it is registered.
    pub fn society(&self, society_id: &SocietyId) -> (r: Option<Society>)
        requires
            self.wf(),
        ensures
            r is Some <==> self@.societies.contains_key(society_id@),
            r matches Some(s) ==> s@ == self@.societies[society_id@],
    {
        match self.societies.get(society_id) {
            Some(s) => Some(s.duplicate()),
            None => None,
        }
    }

    /// The phase history of society `society_id`, oldest first.
    pub fn society_status(&self, society_id: &SocietyId) -> (r: Vec<(BlockNumber, Phase)>)
        requires
            self.wf(),
        ensures
            r@ == self@.phases[society_id@],
    {
        let mut r: Vec<(BlockNumber, Phase)> = Vec::new();
        match self.society_status.get(society_id) {
            Some(src) => {
                let mut i: usize = 0;
                while i < src.len()
                    invariant
                        i <= src@.len(),
                        r@ == src@.take(i as int),
                    decreases src@.len() - i,
                {
                    r.push(src[i]);
                    i = i + 1;
                    assert(r@ =~= src@.take(i as int));
                }
                assert(src@.take(i as int) =~= src@);
            },
            None => {
                assert(r@ =~= self@.phases[society_id@]);
            },
        }
        r
    }

    /// The status of `who` in society `society_id`, if any.
    pub fn status_of(&self, who: AccountId, society_id: &SocietyId) -> (r: Option<MemberStatus>)
        requires
            self.wf(),
        ensures
            r == (if self@.membership.contains_key((who, society_id@)) {
                Some(self@.membership[(who, society_id@)])
            } else {
                None
            }),
    {
        self.membership.status(who, society_id)
    }

    /// The societies in which `who` holds status `status`.
    pub fn membership(&self, who: AccountId, status: MemberStatus) -> (r: Vec<SocietyId>)
        requires
            self.wf(),
        ensures
            forall|id: Seq<u8>|
                #![trigger holds(self@, who, id, status)]
                byte_views(r@).contains(id) <==> holds(self@, who, id, status),
    {
        let r = self.membership.societies_with(who, status);
        proof {
            assert forall|id: Seq<u8>|
                #![trigger holds(self@, who, id, status)]
                byte_views(r@).contains(id) <==> holds(self@, who, id, status) by {
                if byte_views(r@).contains(id) {
                    let i = choose|i: int| 0 <= i < byte_views(r@).len() && byte_views(r@)[i] == id;
                    assert(r@[i]@ == id);
                }
                if holds(self@, who, id, status) {
                    assert(self@.membership.contains_key((who, id)));
                    let i = choose|i: int| 0 <= i < r@.len() && #[trigger] r@[i]@ == id;
                    assert(byte_views(r@)[i] == id);
                }
            }
        }
        r
    }

    /// The number of capsules submitted to society `society_id`.
    pub fn capsule_count(&self, society_id: &SocietyId) -> (r: usize)
        requires
            self.wf(),
        ensures
            r == self@.capsules[society_id@].len(),
    {
        self.shares_and_commitments.list_len(society_id)
    }

    /// The number of public keys submitted to society `society_id`.
    pub fn rsvp_count(&self, society_id: &SocietyId) -> (r: usize)
        requires
            self.wf(),
        ensures
            r == self@.rsvps[society_id@].len(),
    {
        self.rsvp.list_len(society_id)
    }

    /// The number of signature submissions for society `society_id`.
    pub fn signature_count(&self, society_id: &SocietyId) -> (r: usize)
        requires
            self.wf(),
        ensures
            r == self@.signatures[society_id@].len(),
    {
        self.signatures.list_len(society_id)
    }

    /// The most recent notification, if any.
    pub fn last_event(&self) -> (r: Option<Event>)
        ensures
            r == (if self@.events.len() > 0 {
                Some(self@.events.last())
            } else {
                None
            }),
    {
        if self.events.len() > 0 {
            Some(self.events[self.events.len() - 1])
        } else {
            None
        }
    }
}

} // verus!
