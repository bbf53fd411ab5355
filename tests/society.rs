use pallet_society::{Error, Event, MemberStatus, Pallet, Phase, Share, Society, SocietyId};

fn mock_shares() -> Vec<Share> {
    let mut mock_shares: Vec<Share> = Vec::new();
    mock_shares.push(Share { share: vec![1, 2, 3], commitment: vec![1, 2, 3] });
    mock_shares.push(Share { share: vec![2, 3, 4], commitment: vec![2, 3, 4] });
    mock_shares.push(Share { share: vec![3, 4, 5], commitment: vec![3, 4, 5] });
    mock_shares
}

fn new_society(pallet: &mut Pallet, deadline: u64) -> SocietyId {
    let id: SocietyId = b"test".to_vec();
    let name: Vec<u8> = b"test".to_vec();
    let members: Vec<u64> = vec![1, 2, 3];
    assert_eq!(Ok(()), pallet.create(1, id.clone(), 2, name, deadline, members));
    id
}

/// A compressed encoding of the G2 point at infinity.
fn infinity_key() -> Vec<u8> {
    let mut key = vec![0u8; 96];
    key[0] = 0xc0;
    key
}

#[test]
fn test_can_create_society() {
    let mut pallet = Pallet::new();
    let id: SocietyId = b"test".to_vec();
    let name: Vec<u8> = b"test".to_vec();
    let threshold = 2;
    let mut members = Vec::new();
    members.push(1);
    members.push(2);
    members.push(3);
    assert_eq!(
        Ok(()),
        pallet.create(1, id.clone(), threshold, name.clone(), 1, members.clone())
    );
    let expected_society = Society {
        founder: 1,
        members: members.clone(),
        threshold,
        name: name.clone(),
    };
    // the society is created
    let society = pallet.society(&id).unwrap();
    assert_eq!(expected_society, society);
    // the society is in the commit phase at block 0
    let phase = pallet.society_status(&id);
    assert_eq!(1, phase.len());
    assert_eq!(0, phase[0].0);
    assert_eq!(Phase::Commit, phase[0].1);
    // a deadline has been recorded
    let deadline = pallet.deadlines(1);
    assert_eq!(true, deadline.contains(&id));
    // each member has received an invitation
    for member in members.iter() {
        assert_eq!(pallet.membership(*member, MemberStatus::Invitee).contains(&id), true);
    }
}

#[test]
fn test_can_submit_commitments_when_invitee_and_commit_phase() {
    let mut pallet = Pallet::new();
    let id = new_society(&mut pallet, 1);
    assert_eq!(Ok(()), pallet.commit(2, id.clone(), mock_shares()));
    assert_eq!(pallet.membership(2, MemberStatus::Invitee).contains(&id), false);
    assert_eq!(pallet.membership(2, MemberStatus::Committed).contains(&id), true);
}

#[test]
fn test_try_set_join_works_with_threshold_of_commitments() {
    let mut pallet = Pallet::new();
    let id = new_society(&mut pallet, 1);
    assert_eq!(Ok(()), pallet.commit(1, id.clone(), mock_shares()));
    assert_eq!(Ok(()), pallet.commit(2, id.clone(), mock_shares()));
    assert_eq!(Ok(()), pallet.try_set_join(1, id.clone()));
    assert_eq!(vec![(0, Phase::Commit), (1, Phase::Join)], pallet.society_status(&id));
}

#[test]
fn test_try_set_join_fails_with_sub_threshold_participants() {
    let mut pallet = Pallet::new();
    let id = new_society(&mut pallet, 1);
    assert_eq!(Ok(()), pallet.commit(1, id.clone(), mock_shares()));
    let before = pallet.society_status(&id);
    assert_eq!(Err(Error::ThresholdNotReached), pallet.try_set_join(1, id.clone()));
    assert_eq!(before, pallet.society_status(&id));
    assert_eq!(3, pallet.capsule_count(&id));
    assert_eq!(0, pallet.rsvp_count(&id));
    assert_eq!(0, pallet.signature_count(&id));
    assert_eq!(Some(MemberStatus::Committed), pallet.status_of(1, &id));
    assert_eq!(Some(MemberStatus::Invitee), pallet.status_of(2, &id));
    assert_eq!(Some(MemberStatus::Invitee), pallet.status_of(3, &id));
    assert_eq!(vec![id.clone()], pallet.deadlines(1));
    assert_eq!(Some(Event::CommitedToSociety), pallet.last_event());
}

#[test]
fn create_with_taken_id_fails_and_changes_nothing() {
    let mut pallet = Pallet::new();
    let id = new_society(&mut pallet, 1);
    let r = pallet.create(9, id.clone(), 5, b"other".to_vec(), 4, vec![7, 8]);
    assert_eq!(Err(Error::SocietyAlreadyExists), r);
    assert_eq!(1, pallet.society(&id).unwrap().founder);
    assert_eq!(vec![(0, Phase::Commit)], pallet.society_status(&id));
    assert!(pallet.deadlines(4).is_empty());
    assert_eq!(1, pallet.deadlines(1).len());
    assert_eq!(None, pallet.status_of(7, &id));
}

#[test]
fn create_records_height_and_event() {
    let mut pallet = Pallet::new();
    pallet.set_block_number(5);
    assert_eq!(5, pallet.block_number());
    let id = new_society(&mut pallet, 9);
    assert_eq!(vec![(5, Phase::Commit)], pallet.society_status(&id));
    assert_eq!(Some(Event::CreatedSociety), pallet.last_event());
    assert_eq!(Some(Phase::Commit), pallet.phase_of(&id));
    assert_eq!(None, pallet.phase_of(&b"none".to_vec()));
}

#[test]
fn commit_by_non_member_fails() {
    let mut pallet = Pallet::new();
    let id = new_society(&mut pallet, 1);
    assert_eq!(Err(Error::NotMember), pallet.commit(4, id.clone(), mock_shares()));
    assert_eq!(Err(Error::NotMember), pallet.commit(1, b"none".to_vec(), mock_shares()));
    assert_eq!(0, pallet.capsule_count(&id));
}

#[test]
fn commit_outside_commit_phase_fails() {
    let mut pallet = Pallet::new();
    let id = new_society(&mut pallet, 1);
    assert_eq!(Ok(()), pallet.commit(1, id.clone(), mock_shares()));
    assert_eq!(Ok(()), pallet.commit(2, id.clone(), mock_shares()));
    assert_eq!(Ok(()), pallet.try_set_join(1, id.clone()));
    assert_eq!(Err(Error::NotCommitPhase), pallet.commit(3, id.clone(), mock_shares()));
    assert_eq!(Some(MemberStatus::Invitee), pallet.status_of(3, &id));
}

#[test]
fn commit_twice_fails_and_keeps_one_status() {
    let mut pallet = Pallet::new();
    let id = new_society(&mut pallet, 1);
    assert_eq!(Ok(()), pallet.commit(2, id.clone(), mock_shares()));
    assert_eq!(3, pallet.capsule_count(&id));
    assert_eq!(Err(Error::InvalidMembershipChange), pallet.commit(2, id.clone(), mock_shares()));
    assert_eq!(3, pallet.capsule_count(&id));
    assert_eq!(Some(MemberStatus::Committed), pallet.status_of(2, &id));
    assert_eq!(Some(Event::CommitedToSociety), pallet.last_event());
}

#[test]
fn commit_pairs_shares_with_members_as_far_as_both_reach() {
    let mut pallet = Pallet::new();
    let id = new_society(&mut pallet, 1);
    let mut shares = mock_shares();
    shares.push(Share { share: vec![9], commitment: vec![9] });
    assert_eq!(Ok(()), pallet.commit(1, id.clone(), shares));
    assert_eq!(3, pallet.capsule_count(&id));
    let one = vec![Share { share: vec![1], commitment: vec![1] }];
    assert_eq!(Ok(()), pallet.commit(2, id.clone(), one));
    assert_eq!(4, pallet.capsule_count(&id));
}

#[test]
fn quorum_is_threshold_times_member_count() {
    let mut pallet = Pallet::new();
    let id = new_society(&mut pallet, 1);
    assert_eq!(Ok(()), pallet.commit(1, id.clone(), mock_shares()));
    let two = vec![
        Share { share: vec![1], commitment: vec![1] },
        Share { share: vec![2], commitment: vec![2] },
    ];
    assert_eq!(Ok(()), pallet.commit(2, id.clone(), two));
    assert_eq!(5, pallet.capsule_count(&id));
    assert_eq!(Err(Error::ThresholdNotReached), pallet.try_set_join(1, id.clone()));
    let one = vec![Share { share: vec![3], commitment: vec![3] }];
    assert_eq!(Ok(()), pallet.commit(3, id.clone(), one));
    assert_eq!(6, pallet.capsule_count(&id));
    assert_eq!(Ok(()), pallet.try_set_join(1, id.clone()));
}

#[test]
fn join_rejects_a_key_that_does_not_decode() {
    let mut pallet = Pallet::new();
    let id = new_society(&mut pallet, 1);
    assert_eq!(Ok(()), pallet.commit(1, id.clone(), mock_shares()));
    assert_eq!(Err(Error::InvalidPublicKey), pallet.join(1, id.clone(), vec![1, 2, 3]));
    let mut bad = infinity_key();
    bad[0] = 0x40;
    assert_eq!(Err(Error::InvalidPublicKey), pallet.join(1, id.clone(), bad));
    assert_eq!(0, pallet.rsvp_count(&id));
    assert_eq!(Some(MemberStatus::Committed), pallet.status_of(1, &id));
}

#[test]
fn join_with_a_valid_key_makes_the_member_active() {
    let mut pallet = Pallet::new();
    let id = new_society(&mut pallet, 1);
    assert_eq!(Ok(()), pallet.commit(1, id.clone(), mock_shares()));
    assert_eq!(Ok(()), pallet.join(1, id.clone(), infinity_key()));
    assert_eq!(1, pallet.rsvp_count(&id));
    assert_eq!(Some(MemberStatus::Active), pallet.status_of(1, &id));
    assert_eq!(pallet.membership(1, MemberStatus::Committed).contains(&id), false);
    assert_eq!(Some(Event::JoinedSociety), pallet.last_event());
}

#[test]
fn join_errors_come_in_order() {
    let mut pallet = Pallet::new();
    let id = new_society(&mut pallet, 1);
    assert_eq!(Err(Error::NotMember), pallet.join(5, id.clone(), infinity_key()));
    assert_eq!(Err(Error::InvalidMembershipChange), pallet.join(2, id.clone(), infinity_key()));
    assert_eq!(Err(Error::InvalidPublicKey), pallet.join(2, id.clone(), vec![]));
    assert_eq!(Err(Error::InvalidMembershipChange), pallet.join_decoded(2, id.clone(), vec![], true));
    assert_eq!(Ok(()), pallet.commit(2, id.clone(), mock_shares()));
    assert_eq!(Err(Error::InvalidPublicKey), pallet.join_decoded(2, id.clone(), vec![], false));
    assert_eq!(Ok(()), pallet.join_decoded(2, id.clone(), vec![7], true));
    assert_eq!(1, pallet.rsvp_count(&id));
}

#[test]
fn join_outside_commit_phase_fails() {
    let mut pallet = Pallet::new();
    let id = new_society(&mut pallet, 1);
    assert_eq!(Ok(()), pallet.commit(1, id.clone(), mock_shares()));
    assert_eq!(Ok(()), pallet.commit(2, id.clone(), mock_shares()));
    assert_eq!(Ok(()), pallet.try_set_join(1, id.clone()));
    assert_eq!(Err(Error::NotCommitPhase), pallet.join(1, id.clone(), infinity_key()));
}

#[test]
fn submit_signature_is_always_recorded() {
    let mut pallet = Pallet::new();
    let id: SocietyId = b"anything".to_vec();
    assert_eq!(Ok(()), pallet.submit_signature(3, id.clone(), vec![1], vec![2]));
    assert_eq!(Ok(()), pallet.submit_signature(3, id.clone(), vec![1], vec![2]));
    assert_eq!(2, pallet.signature_count(&id));
    assert_eq!(0, pallet.signature_count(&b"other".to_vec()));
}

#[test]
fn check_society_phase_checks_commit_and_join_only() {
    let mut pallet = Pallet::new();
    let id = new_society(&mut pallet, 1);
    assert_eq!(Ok(()), pallet.check_society_phase(&id, Phase::Commit));
    assert_eq!(Err(Error::NotJoinPhase), pallet.check_society_phase(&id, Phase::Join));
    assert_eq!(
        Err(Error::NotCommitPhase),
        pallet.check_society_phase(&b"none".to_vec(), Phase::Commit)
    );
    assert_eq!(
        Err(Error::NotJoinPhase),
        pallet.check_society_phase(&b"none".to_vec(), Phase::Join)
    );
    assert_eq!(Ok(()), pallet.commit(1, id.clone(), mock_shares()));
    assert_eq!(Ok(()), pallet.commit(2, id.clone(), mock_shares()));
    assert_eq!(Ok(()), pallet.try_set_join(1, id.clone()));
    assert_eq!(Ok(()), pallet.check_society_phase(&id, Phase::Join));
    assert_eq!(Err(Error::NotCommitPhase), pallet.check_society_phase(&id, Phase::Commit));
}

#[test]
fn try_get_society_requires_membership() {
    let mut pallet = Pallet::new();
    let id = new_society(&mut pallet, 1);
    assert_eq!(vec![1, 2, 3], pallet.try_get_society(&id, 3).unwrap().members);
    assert_eq!(Err(Error::NotMember), pallet.try_get_society(&id, 4));
    assert_eq!(Err(Error::NotMember), pallet.try_get_society(&b"none".to_vec(), 1));
}

#[test]
fn status_transition_round_trip() {
    let mut pallet = Pallet::new();
    let id = new_society(&mut pallet, 1);
    assert_eq!(
        Ok(()),
        pallet.update_membership(1, &id, MemberStatus::Invitee, MemberStatus::Committed)
    );
    assert_eq!(Some(MemberStatus::Committed), pallet.status_of(1, &id));
    assert_eq!(
        Err(Error::InvalidMembershipChange),
        pallet.update_membership(1, &id, MemberStatus::Invitee, MemberStatus::Committed)
    );
    assert_eq!(
        Ok(()),
        pallet.update_membership(1, &id, MemberStatus::Committed, MemberStatus::Invitee)
    );
    assert_eq!(Some(MemberStatus::Invitee), pallet.status_of(1, &id));
    assert_eq!(
        Err(Error::InvalidMembershipChange),
        pallet.update_membership(9, &id, MemberStatus::Invitee, MemberStatus::Committed)
    );
    assert_eq!(None, pallet.status_of(9, &id));
}

#[test]
fn tick_below_offset_advances_to_join() {
    let mut pallet = Pallet::new();
    let id = new_society(&mut pallet, 1);
    assert_eq!(Ok(()), pallet.commit(1, id.clone(), mock_shares()));
    assert_eq!(Ok(()), pallet.commit(2, id.clone(), mock_shares()));
    pallet.on_initialize(1);
    assert_eq!(vec![(0, Phase::Commit), (1, Phase::Join)], pallet.society_status(&id));
}

#[test]
fn tick_without_quorum_fails_for_good() {
    let mut pallet = Pallet::new();
    let id = new_society(&mut pallet, 1);
    assert_eq!(Ok(()), pallet.commit(1, id.clone(), mock_shares()));
    pallet.on_initialize(2);
    assert_eq!(vec![(0, Phase::Commit)], pallet.society_status(&id));
    pallet.on_initialize(1);
    assert_eq!(vec![(0, Phase::Commit), (1, Phase::Failed)], pallet.society_status(&id));
    assert_eq!(Err(Error::NotCommitPhase), pallet.commit(2, id.clone(), mock_shares()));
    pallet.on_initialize(1);
    assert_eq!(vec![(0, Phase::Commit), (1, Phase::Failed)], pallet.society_status(&id));
}

fn two_member_society(pallet: &mut Pallet, deadline: u64) -> SocietyId {
    let id: SocietyId = b"pair".to_vec();
    assert_eq!(Ok(()), pallet.create(1, id.clone(), 1, b"pair".to_vec(), deadline, vec![1, 2]));
    assert_eq!(Ok(()), pallet.commit(1, id.clone(), mock_shares()));
    assert_eq!(Ok(()), pallet.commit(2, id.clone(), mock_shares()));
    id
}

#[test]
fn tick_above_offset_activates_with_both_quorums() {
    let mut pallet = Pallet::new();
    let id = two_member_society(&mut pallet, 11);
    assert_eq!(Ok(()), pallet.join(1, id.clone(), infinity_key()));
    assert_eq!(Ok(()), pallet.join(2, id.clone(), infinity_key()));
    pallet.on_initialize(11);
    assert_eq!(
        vec![(0, Phase::Commit), (11, Phase::Join), (1, Phase::Active)],
        pallet.society_status(&id)
    );
}

#[test]
fn tick_above_offset_fails_without_key_quorum() {
    let mut pallet = Pallet::new();
    let id = two_member_society(&mut pallet, 12);
    assert_eq!(Ok(()), pallet.join(1, id.clone(), infinity_key()));
    pallet.on_initialize(12);
    assert_eq!(
        vec![(0, Phase::Commit), (12, Phase::Join), (2, Phase::Failed)],
        pallet.society_status(&id)
    );
}

#[test]
fn tick_evaluates_every_due_society() {
    let mut pallet = Pallet::new();
    let a = new_society(&mut pallet, 3);
    let b: SocietyId = b"second".to_vec();
    assert_eq!(Ok(()), pallet.create(2, b.clone(), 1, b"second".to_vec(), 3, vec![4]));
    assert_eq!(Ok(()), pallet.commit(4, b.clone(), mock_shares()));
    assert_eq!(vec![a.clone(), b.clone()], pallet.deadlines(3));
    pallet.on_initialize(3);
    assert_eq!(Some(Phase::Failed), pallet.phase_of(&a));
    assert_eq!(Some(Phase::Join), pallet.phase_of(&b));
}

#[test]
fn end_to_end_create_then_commit() {
    let mut pallet = Pallet::new();
    let id = new_society(&mut pallet, 1);
    assert_eq!(vec![(0, Phase::Commit)], pallet.society_status(&id));
    assert!(pallet.deadlines(1).contains(&id));
    for member in [1u64, 2, 3] {
        assert_eq!(Some(MemberStatus::Invitee), pallet.status_of(member, &id));
    }
    assert_eq!(Ok(()), pallet.commit(2, id.clone(), mock_shares()));
    assert_eq!(Some(MemberStatus::Committed), pallet.status_of(2, &id));
    assert!(!pallet.membership(2, MemberStatus::Invitee).contains(&id));
}
