//! The mathematical model of the society state, and the laws that hold of it.
use vstd::prelude::*;
use crate::types::{AccountId, BlockNumber, Capsule, Error, Event, MemberStatus, Phase, Share, SocietyView};

verus! {

/// The height offset between the commit gate and the activation gate,
/// which a tick evaluates together.
pub const ACTIVATION_OFFSET: u64 = 10;

/// The content of a [`crate::types::Capsule`].
pub struct CapsuleView {
    pub recipient: AccountId,
    pub sender: AccountId,
    pub share: Seq<u8>,
    pub commitment: Seq<u8>,
}

impl View for Capsule {
    type V = CapsuleView;

    open spec fn view(&self) -> CapsuleView {
        CapsuleView {
            recipient: self.recipient,
            sender: self.sender,
            share: self.share@,
            commitment: self.commitment@,
        }
    }
}

/// The whole state. List-valued stores are total maps: a society without
/// entries holds the empty list.
pub struct PalletModel {
    /// The current height of the clock.
    pub block_number: BlockNumber,
    /// The registered societies.
    pub societies: Map<Seq<u8>, SocietyView>,
    /// The share capsules submitted to each society.
    pub capsules: Map<Seq<u8>, Seq<CapsuleView>>,
    /// The (account, public key) pairs submitted to each society.
    pub rsvps: Map<Seq<u8>, Seq<(AccountId, Seq<u8>)>>,
    /// The status of each account in each society.
    pub membership: Map<(AccountId, Seq<u8>), MemberStatus>,
    /// The phase history of each society, oldest first.
    pub phases: Map<Seq<u8>, Seq<(BlockNumber, Phase)>>,
    /// The (account, prover response, verifier challenge) triples of each society.
    pub signatures: Map<Seq<u8>, Seq<(AccountId, Seq<u8>, Seq<u8>)>>,
    /// The societies due for evaluation at each height.
    pub deadlines: Map<BlockNumber, Seq<Seq<u8>>>,
    /// The notifications recorded so far.
    pub events: Seq<Event>,
}

/// The state in which nothing has happened yet.
pub open spec fn empty_model() -> PalletModel {
    PalletModel {
        block_number: 0,
        societies: Map::empty(),
        capsules: Map::new(|id: Seq<u8>| true, |id: Seq<u8>| Seq::empty()),
        rsvps: Map::new(|id: Seq<u8>| true, |id: Seq<u8>| Seq::empty()),
        membership: Map::empty(),
        phases: Map::new(|id: Seq<u8>| true, |id: Seq<u8>| Seq::empty()),
        signatures: Map::new(|id: Seq<u8>| true, |id: Seq<u8>| Seq::empty()),
        deadlines: Map::new(|h: BlockNumber| true, |h: BlockNumber| Seq::empty()),
        events: Seq::empty(),
    }
}

/// The number of submissions a gate needs: threshold times member count.
pub open spec fn quorum(s: SocietyView) -> int {
    s.threshold as int * s.members.len()
}

/// The phase a history ends in, if any.
pub open spec fn current_phase(h: Seq<(BlockNumber, Phase)>) -> Option<Phase> {
    if h.len() > 0 {
        Some(h.last().1)
    } else {
        None
    }
}

/// Whether a history ends in `Failed`.
pub open spec fn is_failed(h: Seq<(BlockNumber, Phase)>) -> bool {
    current_phase(h) == Some(Phase::Failed)
}

/// No entry of the history follows a `Failed` one.
pub open spec fn failed_is_last(h: Seq<(BlockNumber, Phase)>) -> bool {
    forall|i: int| 0 <= i < h.len() - 1 ==> (#[trigger] h[i]).1 != Phase::Failed
}

/// The heights of the history never decrease.
pub open spec fn heights_sorted(h: Seq<(BlockNumber, Phase)>) -> bool {
    forall|i: int, j: int| 0 <= i < j < h.len() ==> (#[trigger] h[i]).0 <= (#[trigger] h[j]).0
}

/// Whether `who` is a member of the registered society `id`.
pub open spec fn is_member(m: PalletModel, id: Seq<u8>, who: AccountId) -> bool {
    m.societies.contains_key(id) && m.societies[id].members.contains(who)
}

/// Whether `who` holds status `status` in society `id`.
pub open spec fn holds(m: PalletModel, who: AccountId, id: Seq<u8>, status: MemberStatus) -> bool {
    m.membership.contains_key((who, id)) && m.membership[(who, id)] == status
}

/// What `join` returns and leaves, given whether the public key decodes:
/// the first failing check among membership, the Commit phase, the key and
/// the `Committed` status decides the error, and an error changes nothing;
/// on success the key is recorded and `who` becomes `Active`.
pub open spec fn join_outcome(
    m: PalletModel,
    who: AccountId,
    id: Seq<u8>,
    key: Seq<u8>,
    key_decodes: bool,
) -> (Result<(), Error>, PalletModel) {
    if !is_member(m, id, who) {
        (Err(Error::NotMember), m)
    } else if current_phase(m.phases[id]) != Some(Phase::Commit) {
        (Err(Error::NotCommitPhase), m)
    } else if !key_decodes {
        (Err(Error::InvalidPublicKey), m)
    } else if !holds(m, who, id, MemberStatus::Committed) {
        (Err(Error::InvalidMembershipChange), m)
    } else {
        (
            Ok(()),
            PalletModel {
                rsvps: m.rsvps.insert(id, m.rsvps[id].push((who, key))),
                membership: m.membership.insert((who, id), MemberStatus::Active),
                events: m.events.push(Event::JoinedSociety),
                ..m
            },
        )
    }
}

/// The capsules that `who` sends: the i-th share goes to the i-th member,
/// as far as both lists reach.
pub open spec fn capsules_for(members: Seq<AccountId>, who: AccountId, shares: Seq<Share>) -> Seq<
    CapsuleView,
> {
    let n = if members.len() <= shares.len() {
        members.len()
    } else {
        shares.len()
    };
    Seq::new(
        n,
        |i: int|
            CapsuleView {
                recipient: members[i],
                sender: who,
                share: shares[i].share@,
                commitment: shares[i].commitment@,
            },
    )
}

/// The entries that a tick at height `n` appends to the history of the due
/// society `id`: nothing once it has failed; otherwise the commit gate at
/// `n`, and, above the offset and only after that gate passed, the
/// activation gate labelled `n - ACTIVATION_OFFSET`.
pub open spec fn tick_entries(m: PalletModel, n: BlockNumber, id: Seq<u8>) -> Seq<
    (BlockNumber, Phase),
> {
    let q = quorum(m.societies[id]);
    if is_failed(m.phases[id]) {
        Seq::empty()
    } else if m.capsules[id].len() < q {
        seq![(n, Phase::Failed)]
    } else if n > ACTIVATION_OFFSET {
        let label = (n - ACTIVATION_OFFSET) as BlockNumber;
        if m.rsvps[id].len() >= q {
            seq![(n, Phase::Join), (label, Phase::Active)]
        } else {
            seq![(n, Phase::Join), (label, Phase::Failed)]
        }
    } else {
        seq![(n, Phase::Join)]
    }
}

/// The state after a tick at height `n`: each society due at `n` has its
/// history extended by [`tick_entries`]; nothing else changes.
pub open spec fn after_tick(m: PalletModel, n: BlockNumber) -> PalletModel {
    PalletModel {
        phases: Map::new(
            |id: Seq<u8>| true,
            |id: Seq<u8>|
                if m.deadlines[n].contains(id) {
                    m.phases[id] + tick_entries(m, n, id)
                } else {
                    m.phases[id]
                },
        ),
        ..m
    }
}

/// A tick never extends a history that has failed, and keeps `Failed` last.
pub proof fn lemma_tick_keeps_failed_terminal(m: PalletModel, n: BlockNumber, id: Seq<u8>)
    requires
        failed_is_last(m.phases[id]),
    ensures
        is_failed(m.phases[id]) ==> after_tick(m, n).phases[id] == m.phases[id],
        failed_is_last(after_tick(m, n).phases[id]),
{
    let h = m.phases[id];
    let e = tick_entries(m, n, id);
    let h2 = after_tick(m, n).phases[id];
    if is_failed(h) {
        assert(h + e =~= h);
    }
    assert forall|i: int| 0 <= i < h2.len() - 1 implies (#[trigger] h2[i]).1 != Phase::Failed by {
        if m.deadlines[n].contains(id) && i >= h.len() - 1 && i < h.len() {
            assert(h2[i] == h[i]);
        }
    }
}

/// Appending an entry no lower than every height of a sorted history keeps
/// it sorted; this is what each gate does when called at the current height.
pub proof fn lemma_append_keeps_heights_sorted(
    h: Seq<(BlockNumber, Phase)>,
    e: (BlockNumber, Phase),
)
    requires
        heights_sorted(h),
        forall|i: int| 0 <= i < h.len() ==> (#[trigger] h[i]).0 <= e.0,
    ensures
        heights_sorted(h.push(e)),
{
    let h2 = h.push(e);
    assert forall|i: int, j: int| 0 <= i < j < h2.len() implies (#[trigger] h2[i]).0
        <= (#[trigger] h2[j]).0 by {
        if j == h.len() {
            assert(h2[i] == h[i]);
        } else {
            assert(h2[i] == h[i] && h2[j] == h[j]);
        }
    }
}

/// A tick keeps a sorted history sorted when its heights are at most `n`,
/// unless the activation gate runs: that gate appends an entry labelled
/// below `n`, after the commit gate's entry at `n`.
pub proof fn lemma_tick_keeps_heights_sorted(m: PalletModel, n: BlockNumber, id: Seq<u8>)
    requires
        heights_sorted(m.phases[id]),
        forall|i: int| 0 <= i < m.phases[id].len() ==> (#[trigger] m.phases[id][i]).0 <= n,
        n <= ACTIVATION_OFFSET || is_failed(m.phases[id]) || m.capsules[id].len() < quorum(
            m.societies[id],
        ),
    ensures
        heights_sorted(after_tick(m, n).phases[id]),
{
    let h = m.phases[id];
    let h2 = after_tick(m, n).phases[id];
    assert forall|i: int, j: int| 0 <= i < j < h2.len() implies (#[trigger] h2[i]).0
        <= (#[trigger] h2[j]).0 by {
        if j >= h.len() {
            assert(h2[j].0 == n);
        }
    }
}

} // verus!
