//! What every call of the staking participation pallet keeps.
use crate::primitives::{AccountId, BlockNumber, Origin};
use crate::staking_participation::pallet::{
    approve_refusal, authorize_retire_refusal, certified, confirm_refusal, empty_pallet,
    governance_refusal, governance_update_refusal, governance_updated, issue_refusal, join_refusal,
    join_requested, moved, retire_certificate, retire_refusal, slash_approval, slash_proposed,
    slash_rejection, slash_request_refusal, some_active, stake_confirmed, vote_refusal,
    bootstrapped, Event, PalletModel,
};
use crate::staking_participation::types::{CertificateModel, OperatorStatus, ReferenceModel};
use vstd::prelude::*;

verus! {

// ---------------------------------------------------------------------------------------------
// Calls as values

/// A call with its origin. `governance` tells whether the governance makes it.
pub enum CallModel {
    RequestJoin { origin: Origin, when: BlockNumber },
    IssueCertificate { governance: bool, operator: AccountId, certificate: CertificateModel },
    ConfirmStake { origin: Origin, reference: ReferenceModel, nonce: u64 },
    AuthorizeNode { governance: bool, operator: AccountId },
    RequestRetire { origin: Origin },
    AuthorizeRetire { governance: bool, operator: AccountId, nonce: u64, lock_until: u64 },
    RequestSlash { origin: Origin, operator: AccountId, amount: u128, reason: Seq<u8> },
    ApproveSlash { origin: Origin, id: u64 },
    RejectSlash { origin: Origin, id: u64 },
    UpdateGovernance { governance: bool, admins: Seq<AccountId>, threshold: u32 },
}

/// The storage after a call. A refused call leaves it as it is.
pub open spec fn applied(s: PalletModel, call: CallModel) -> PalletModel {
    match call {
        CallModel::RequestJoin { origin, when } => if join_refusal(s, origin) is Some {
            s
        } else {
            join_requested(s, origin->Signed_0, when)
        },
        CallModel::IssueCertificate { governance, operator, certificate } => if issue_refusal(
            s,
            governance,
            operator,
            certificate,
        ) is Some {
            s
        } else {
            certified(
                s,
                operator,
                certificate,
                OperatorStatus::CertificateIssued,
                Event::CertificateIssued { operator, nonce: certificate.nonce },
            )
        },
        CallModel::ConfirmStake { origin, reference, nonce } => if confirm_refusal(
            s,
            origin,
            reference.tx_hash,
            reference.policy_id,
            reference.asset_name,
            nonce,
        ) is Some {
            s
        } else {
            stake_confirmed(s, origin->Signed_0, nonce, reference)
        },
        CallModel::AuthorizeNode { governance, operator } => if governance_refusal(
            s,
            governance,
            operator,
            OperatorStatus::StakeConfirmed,
        ) is Some {
            s
        } else {
            moved(s, operator, OperatorStatus::Active, Event::NodeAuthorized { operator })
        },
        CallModel::RequestRetire { origin } => if retire_refusal(s, origin) is Some {
            s
        } else {
            moved(
                s,
                origin->Signed_0,
                OperatorStatus::PendingRetire,
                Event::RetireRequested { operator: origin->Signed_0 },
            )
        },
        CallModel::AuthorizeRetire { governance, operator, nonce, lock_until } =>
            if authorize_retire_refusal(s, governance, operator, nonce) is Some {
            s
        } else {
            certified(
                s,
                operator,
                retire_certificate(operator, nonce, lock_until),
                OperatorStatus::Retired,
                Event::RetireAuthorized { operator, nonce },
            )
        },
        CallModel::RequestSlash { origin, operator, amount, reason } => if slash_request_refusal(
            s,
            origin,
            operator,
            reason,
        ) is Some {
            s
        } else {
            slash_proposed(s, origin->Signed_0, operator, amount, reason)
        },
        CallModel::ApproveSlash { origin, id } => if approve_refusal(s, origin, id) is Some {
            s
        } else {
            slash_approval(s, origin->Signed_0, id)
        },
        CallModel::RejectSlash { origin, id } => if vote_refusal(s, origin, id) is Some {
            s
        } else {
            slash_rejection(s, origin->Signed_0, id)
        },
        CallModel::UpdateGovernance { governance, admins, threshold } =>
            if governance_update_refusal(s, governance, admins) is Some {
            s
        } else {
            governance_updated(s, admins, threshold)
        },
    }
}

// ---------------------------------------------------------------------------------------------
// What every call keeps

/// How many certificates an operator in a state has been given.
pub open spec fn certificates_held(status: OperatorStatus) -> nat {
    match status {
        OperatorStatus::Requested => 0,
        OperatorStatus::CertificateIssued => 1,
        OperatorStatus::StakeConfirmed => 1,
        OperatorStatus::Active => 1,
        OperatorStatus::PendingRetire => 1,
        OperatorStatus::Retired => 2,
    }
}

/// A record belongs to its account, holds as many nonces as its state tells, and each of them is that
/// of a certificate for the account.
pub open spec fn record_valid(s: PalletModel, operator: AccountId) -> bool {
    let record = s.operator_registry[operator];
    &&& record.account == operator
    &&& record.certificate_nonces.len() == certificates_held(record.status)
    &&& forall|i: int|
        0 <= i < record.certificate_nonces.len() ==> s.certificates.contains_key(
            #[trigger] record.certificate_nonces[i],
        ) && s.certificates[record.certificate_nonces[i]].operator_account == operator@
}

/// The storage is consistent: records are valid, certificates are kept under their nonces, stake
/// references belong to certificates, and no nonce is in the records of two operators or twice in
/// one.
pub open spec fn consistent(s: PalletModel) -> bool {
    &&& forall|operator: AccountId| #[trigger]
        s.operator_registry.contains_key(operator) ==> record_valid(s, operator)
    &&& forall|nonce: u64| #[trigger]
        s.certificates.contains_key(nonce) ==> s.certificates[nonce].nonce == nonce
    &&& forall|nonce: u64| #[trigger]
        s.cardano_references.contains_key(nonce) ==> s.certificates.contains_key(nonce)
    &&& forall|a: AccountId, b: AccountId, i: int, j: int|
        #![trigger s.operator_registry[a].certificate_nonces[i], s.operator_registry[b].certificate_nonces[j]]
        holds_nonce(s, a, i) && holds_nonce(s, b, j)
            && s.operator_registry[a].certificate_nonces[i]
            == s.operator_registry[b].certificate_nonces[j] ==> a == b && i == j
}

pub open spec fn holds_nonce(s: PalletModel, operator: AccountId, i: int) -> bool {
    s.operator_registry.contains_key(operator) && 0 <= i
        < s.operator_registry[operator].certificate_nonces.len()
}

/// Storage starts consistent.
pub proof fn lemma_empty_consistent()
    ensures
        consistent(empty_pallet()),
{
}

proof fn lemma_certified_consistent(
    s: PalletModel,
    operator: AccountId,
    certificate: CertificateModel,
    status: OperatorStatus,
    event: Event,
)
    requires
        consistent(s),
        s.operator_registry.contains_key(operator),
        !s.certificates.contains_key(certificate.nonce),
        certificate.operator_account == operator@,
        certificates_held(status) == certificates_held(s.operator_registry[operator].status) + 1,
    ensures
        consistent(certified(s, operator, certificate, status, event)),
{
    let t = certified(s, operator, certificate, status, event);
    assert(record_valid(s, operator));
    let nonces = s.operator_registry[operator].certificate_nonces;
    assert forall|other: AccountId| #[trigger]
        t.operator_registry.contains_key(other) implies record_valid(t, other) by {
        assert(record_valid(s, other));
        let record = t.operator_registry[other];
        assert forall|i: int| 0 <= i < record.certificate_nonces.len() implies t.certificates.contains_key(
            #[trigger] record.certificate_nonces[i],
        ) && t.certificates[record.certificate_nonces[i]].operator_account == other@ by {
            let old_nonces = s.operator_registry[other].certificate_nonces;
            if i < old_nonces.len() {
                assert(record.certificate_nonces[i] == old_nonces[i]);
                assert(s.certificates.contains_key(old_nonces[i]));
            }
        }
    }
    assert forall|a: AccountId, b: AccountId, i: int, j: int|
        #![trigger t.operator_registry[a].certificate_nonces[i], t.operator_registry[b].certificate_nonces[j]]
        holds_nonce(t, a, i) && holds_nonce(t, b, j)
            && t.operator_registry[a].certificate_nonces[i]
            == t.operator_registry[b].certificate_nonces[j] implies a == b && i == j by {
        assert(record_valid(s, a));
        assert(record_valid(s, b));
        let x = s.operator_registry[a].certificate_nonces;
        let y = s.operator_registry[b].certificate_nonces;
        if i < x.len() {
            assert(t.operator_registry[a].certificate_nonces[i] == x[i]);
            assert(s.certificates.contains_key(x[i]));
        }
        if j < y.len() {
            assert(t.operator_registry[b].certificate_nonces[j] == y[j]);
            assert(s.certificates.contains_key(y[j]));
        }
    }
}

/// A state is left for the next one of the life cycle.
proof fn lemma_moved_consistent(
    s: PalletModel,
    operator: AccountId,
    status: OperatorStatus,
    event: Event,
)
    requires
        consistent(s),
        s.operator_registry.contains_key(operator),
        certificates_held(status) == certificates_held(s.operator_registry[operator].status),
    ensures
        consistent(moved(s, operator, status, event)),
{
    let t = moved(s, operator, status, event);
    assert forall|other: AccountId| #[trigger]
        t.operator_registry.contains_key(other) implies record_valid(t, other) by {
        assert(record_valid(s, other));
        assert(t.operator_registry[other].certificate_nonces
            == s.operator_registry[other].certificate_nonces);
    }
    assert forall|a: AccountId, b: AccountId, i: int, j: int|
        #![trigger t.operator_registry[a].certificate_nonces[i], t.operator_registry[b].certificate_nonces[j]]
        holds_nonce(t, a, i) && holds_nonce(t, b, j)
            && t.operator_registry[a].certificate_nonces[i]
            == t.operator_registry[b].certificate_nonces[j] implies a == b && i == j by {
        assert(s.operator_registry[a].certificate_nonces[i]
            == t.operator_registry[a].certificate_nonces[i]);
        assert(s.operator_registry[b].certificate_nonces[j]
            == t.operator_registry[b].certificate_nonces[j]);
        assert(holds_nonce(s, a, i) && holds_nonce(s, b, j));
    }
}

proof fn lemma_same_registry(s: PalletModel, t: PalletModel)
    requires
        consistent(s),
        t.operator_registry == s.operator_registry,
        t.certificates == s.certificates,
        t.cardano_references == s.cardano_references,
    ensures
        consistent(t),
{
    assert forall|other: AccountId| #[trigger]
        t.operator_registry.contains_key(other) implies record_valid(t, other) by {
        assert(record_valid(s, other));
    }
    assert forall|a: AccountId, b: AccountId, i: int, j: int|
        #![trigger t.operator_registry[a].certificate_nonces[i], t.operator_registry[b].certificate_nonces[j]]
        holds_nonce(t, a, i) && holds_nonce(t, b, j)
            && t.operator_registry[a].certificate_nonces[i]
            == t.operator_registry[b].certificate_nonces[j] implies a == b && i == j by {
        assert(holds_nonce(s, a, i) && holds_nonce(s, b, j));
    }
}

/// Every call keeps the storage consistent.
pub proof fn lemma_consistency_kept(s: PalletModel, call: CallModel)
    requires
        consistent(s),
    ensures
        consistent(applied(s, call)),
{
    let t = applied(s, call);
    if t == s {
    } else {
        match call {
            CallModel::RequestJoin { origin, when } => {
                let who = origin->Signed_0;
                assert forall|other: AccountId| #[trigger]
                    t.operator_registry.contains_key(other) implies record_valid(t, other) by {
                    if other != who {
                        assert(record_valid(s, other));
                    }
                }
                assert forall|a: AccountId, b: AccountId, i: int, j: int|
                    #![trigger t.operator_registry[a].certificate_nonces[i], t.operator_registry[b].certificate_nonces[j]]
                    holds_nonce(t, a, i) && holds_nonce(t, b, j)
                        && t.operator_registry[a].certificate_nonces[i]
                        == t.operator_registry[b].certificate_nonces[j] implies a == b && i
                    == j by {
                    assert(a != who && b != who);
                    assert(s.operator_registry[a].certificate_nonces[i]
                        == t.operator_registry[a].certificate_nonces[i]);
                    assert(s.operator_registry[b].certificate_nonces[j]
                        == t.operator_registry[b].certificate_nonces[j]);
                    assert(holds_nonce(s, a, i) && holds_nonce(s, b, j));
                }
            },
            CallModel::IssueCertificate { governance, operator, certificate } => {
                lemma_certified_consistent(
                    s,
                    operator,
                    certificate,
                    OperatorStatus::CertificateIssued,
                    Event::CertificateIssued { operator, nonce: certificate.nonce },
                );
            },
            CallModel::ConfirmStake { origin, reference, nonce } => {
                let who = origin->Signed_0;
                let event = Event::StakeConfirmed { operator: who, nonce };
                let between = moved(s, who, OperatorStatus::StakeConfirmed, event);
                lemma_moved_consistent(s, who, OperatorStatus::StakeConfirmed, event);
                let without = PalletModel {
                    cardano_references: between.cardano_references,
                    ..t
                };
                lemma_same_registry(between, without);
                assert forall|other: AccountId| #[trigger]
                    t.operator_registry.contains_key(other) implies record_valid(t, other) by {
                    assert(record_valid(without, other));
                }
                assert forall|a: AccountId, b: AccountId, i: int, j: int|
                    #![trigger t.operator_registry[a].certificate_nonces[i], t.operator_registry[b].certificate_nonces[j]]
                    holds_nonce(t, a, i) && holds_nonce(t, b, j)
                        && t.operator_registry[a].certificate_nonces[i]
                        == t.operator_registry[b].certificate_nonces[j] implies a == b && i
                    == j by {
                    assert(holds_nonce(without, a, i) && holds_nonce(without, b, j));
                }
            },
            CallModel::AuthorizeNode { governance, operator } => {
                lemma_moved_consistent(
                    s,
                    operator,
                    OperatorStatus::Active,
                    Event::NodeAuthorized { operator },
                );
            },
            CallModel::RequestRetire { origin } => {
                lemma_moved_consistent(
                    s,
                    origin->Signed_0,
                    OperatorStatus::PendingRetire,
                    Event::RetireRequested { operator: origin->Signed_0 },
                );
            },
            CallModel::AuthorizeRetire { governance, operator, nonce, lock_until } => {
                lemma_certified_consistent(
                    s,
                    operator,
                    retire_certificate(operator, nonce, lock_until),
                    OperatorStatus::Retired,
                    Event::RetireAuthorized { operator, nonce },
                );
            },
            _ => {
                lemma_same_registry(s, t);
            },
        }
    }
}

// ---------------------------------------------------------------------------------------------
// The life of an operator

/// The states in the order in which an operator goes through them.
pub open spec fn stage(status: OperatorStatus) -> nat {
    match status {
        OperatorStatus::Requested => 0,
        OperatorStatus::CertificateIssued => 1,
        OperatorStatus::StakeConfirmed => 2,
        OperatorStatus::Active => 3,
        OperatorStatus::PendingRetire => 4,
        OperatorStatus::Retired => 5,
    }
}

/// An operator stays registered; a call leaves it in its state or takes it to the next one.
pub proof fn lemma_operator_life_cycle(s: PalletModel, call: CallModel, operator: AccountId)
    requires
        s.operator_registry.contains_key(operator),
    ensures
        applied(s, call).operator_registry.contains_key(operator),
        ({
            let before = stage(s.operator_registry[operator].status);
            let after = stage(applied(s, call).operator_registry[operator].status);
            after == before || after == before + 1
        }),
{
}

/// A new operator starts by asking to join.
pub proof fn lemma_operators_start_requested(s: PalletModel, call: CallModel, operator: AccountId)
    requires
        !s.operator_registry.contains_key(operator),
        applied(s, call).operator_registry.contains_key(operator),
    ensures
        applied(s, call).operator_registry[operator].status == OperatorStatus::Requested,
        call matches CallModel::RequestJoin { origin, .. } && origin == Origin::Signed(operator),
{
}

/// Certificates are never replaced or removed: a nonce is used once.
pub proof fn lemma_certificates_stay(s: PalletModel, call: CallModel, nonce: u64)
    requires
        s.certificates.contains_key(nonce),
    ensures
        applied(s, call).certificates.contains_key(nonce),
        applied(s, call).certificates[nonce] == s.certificates[nonce],
{
}

// ---------------------------------------------------------------------------------------------
// Votes

/// A vote is never changed or withdrawn.
pub proof fn lemma_votes_stay(s: PalletModel, call: CallModel, id: u64, admin: AccountId)
    requires
        s.slash_votes.contains_key((id, admin)),
    ensures
        applied(s, call).slash_votes.contains_key((id, admin)),
        applied(s, call).slash_votes[(id, admin)] == s.slash_votes[(id, admin)],
{
}

/// The accounts that voted in one way on a proposal.
pub open spec fn voters(votes: Map<(u64, AccountId), u8>, id: u64, vote: u8) -> Set<AccountId> {
    Set::new(
        |admin: AccountId| votes.contains_key((id, admin)) && votes[(id, admin)] == vote,
    )
}

/// A count that stops at the largest `u32`.
pub open spec fn capped(n: nat) -> nat {
    if n <= u32::MAX {
        n
    } else {
        u32::MAX as nat
    }
}

/// The counters of a proposal are the votes on it, and no vote is on a proposal yet to come.
pub open spec fn votes_counted(s: PalletModel) -> bool {
    &&& forall|id: u64| #[trigger]
        s.slash_proposals.contains_key(id) ==> id < s.next_slash_proposal_id && voters(
            s.slash_votes,
            id,
            1,
        ).finite() && voters(s.slash_votes, id, 2).finite() && s.slash_proposals[id].approvals
            == capped(voters(s.slash_votes, id, 1).len()) && s.slash_proposals[id].rejections
            == capped(voters(s.slash_votes, id, 2).len())
    &&& forall|id: u64, admin: AccountId| #[trigger]
        s.slash_votes.contains_key((id, admin)) ==> id < s.next_slash_proposal_id
}

proof fn lemma_vote_added(
    votes: Map<(u64, AccountId), u8>,
    id: u64,
    admin: AccountId,
    vote: u8,
    other: u64,
    kind: u8,
)
    requires
        !votes.contains_key((id, admin)),
    ensures
        voters(votes.insert((id, admin), vote), other, kind) == if other == id && kind == vote {
            voters(votes, other, kind).insert(admin)
        } else {
            voters(votes, other, kind)
        },
        !voters(votes, id, vote).contains(admin),
{
    assert(voters(votes.insert((id, admin), vote), other, kind) =~= if other == id && kind == vote {
        voters(votes, other, kind).insert(admin)
    } else {
        voters(votes, other, kind)
    });
}

/// As long as proposal ids have not wrapped around, the counters of a proposal are the votes on it.
pub proof fn lemma_votes_counted_kept(s: PalletModel, call: CallModel)
    requires
        votes_counted(s),
        s.next_slash_proposal_id < u64::MAX,
    ensures
        votes_counted(applied(s, call)),
{
    let t = applied(s, call);
    match call {
        CallModel::ApproveSlash { origin, id } => {
            if approve_refusal(s, origin, id) is None {
                lemma_vote_counted(s, t, id, origin->Signed_0, 1);
            }
        },
        CallModel::RejectSlash { origin, id } => {
            if vote_refusal(s, origin, id) is None {
                lemma_vote_counted(s, t, id, origin->Signed_0, 2);
            }
        },
        CallModel::RequestSlash { origin, operator, amount, reason } => {
            if slash_request_refusal(s, origin, operator, reason) is None {
                let id = s.next_slash_proposal_id;
                assert(voters(t.slash_votes, id, 1) =~= Set::<AccountId>::empty());
                assert(voters(t.slash_votes, id, 2) =~= Set::<AccountId>::empty());
                assert forall|other: u64| #[trigger]
                    t.slash_proposals.contains_key(other) implies other < t.next_slash_proposal_id
                    && voters(t.slash_votes, other, 1).finite() && voters(
                    t.slash_votes,
                    other,
                    2,
                ).finite() && t.slash_proposals[other].approvals == capped(
                    voters(t.slash_votes, other, 1).len(),
                ) && t.slash_proposals[other].rejections == capped(
                    voters(t.slash_votes, other, 2).len(),
                ) by {
                    if other != id {
                        assert(s.slash_proposals.contains_key(other));
                    }
                }
            }
        },
        _ => {},
    }
}

proof fn lemma_vote_counted(s: PalletModel, t: PalletModel, id: u64, who: AccountId, vote: u8)
    requires
        votes_counted(s),
        s.slash_proposals.contains_key(id),
        !s.slash_votes.contains_key((id, who)),
        vote == 1 && t == slash_approval(s, who, id) || vote == 2 && t == slash_rejection(
            s,
            who,
            id,
        ),
    ensures
        votes_counted(t),
{
    assert forall|other: u64| #[trigger]
        t.slash_proposals.contains_key(other) implies other < t.next_slash_proposal_id && voters(
        t.slash_votes,
        other,
        1,
    ).finite() && voters(t.slash_votes, other, 2).finite() && t.slash_proposals[other].approvals
        == capped(voters(t.slash_votes, other, 1).len()) && t.slash_proposals[other].rejections
        == capped(voters(t.slash_votes, other, 2).len()) by {
        assert(s.slash_proposals.contains_key(other));
        lemma_vote_added(s.slash_votes, id, who, vote, other, 1);
        lemma_vote_added(s.slash_votes, id, who, vote, other, 2);
    }
    assert forall|other: u64, admin: AccountId| #[trigger]
        t.slash_votes.contains_key((other, admin)) implies other < t.next_slash_proposal_id by {
        if (other, admin) != (id, who) {
            assert(s.slash_votes.contains_key((other, admin)));
        }
    }
}

/// Past the bootstrap phase, the governance is only replaced by one that an active operator is part
/// of.
pub proof fn lemma_governance_has_operator(
    s: PalletModel,
    governance: bool,
    admins: Seq<AccountId>,
    threshold: u32,
)
    requires
        governance_update_refusal(s, governance, admins) is None,
        bootstrapped(s),
    ensures
        some_active(governance_updated(s, admins, threshold), admins),
        governance_updated(s, admins, threshold).governance_authority->0.admins == admins,
{
    let t = governance_updated(s, admins, threshold);
    let i = choose|i: int|
        0 <= i < admins.len() && crate::staking_participation::pallet::is_active(
            s,
            #[trigger] admins[i],
        );
    assert(crate::staking_participation::pallet::is_active(t, admins[i]));
}

} // verus!
