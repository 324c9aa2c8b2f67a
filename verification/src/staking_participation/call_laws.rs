//! What each call of the staking participation pallet promises.
use crate::primitives::{AccountId, BlockNumber, DispatchError, Origin};
use crate::scale::lemma_account_read_back;
use crate::sorted_map::{keys_ascend, lemma_listed, lemma_map_drop_last, lemma_map_entry, listing, map_of};
use crate::staking_participation::laws::{
    applied, capped, voters, votes_counted, CallModel,
};
use crate::staking_participation::pallet::{
    active_entries, active_operators, approve_refusal, authorize_retire_refusal, bootstrapped,
    confirm_refusal, governance_refusal, governance_update_refusal, is_active, issue_refusal,
    join_refusal, lemma_active_entries, retire_refusal, slash_request_refusal, some_active,
    vote_refusal, Error, Event, PalletModel,
};
use crate::staking_participation::types::{
    CertificateModel, OperatorModel, OperatorStatus, ReferenceModel,
};
use vstd::prelude::*;

verus! {

/// Only the record of one operator may differ.
pub open spec fn other_operators_stay(s: PalletModel, t: PalletModel, operator: AccountId) -> bool {
    forall|other: AccountId|
        other != operator ==> (#[trigger] t.operator_registry.contains_key(other)
            == s.operator_registry.contains_key(other) && (s.operator_registry.contains_key(other)
            ==> t.operator_registry[other] == s.operator_registry[other]))
}

/// Only the entry with one number may differ.
pub open spec fn other_numbers_stay<V>(before: Map<u64, V>, after: Map<u64, V>, number: u64) -> bool {
    forall|other: u64|
        other != number ==> (#[trigger] after.contains_key(other) == before.contains_key(other) && (
        before.contains_key(other) ==> after[other] == before[other]))
}

/// The operator is registered and in the state.
pub open spec fn stands(s: PalletModel, operator: AccountId, status: OperatorStatus) -> bool {
    s.operator_registry.contains_key(operator) && s.operator_registry[operator].status == status
}

/// The operator has come to the state with a new event, and nothing else has changed.
pub open spec fn only_moves(
    s: PalletModel,
    t: PalletModel,
    operator: AccountId,
    status: OperatorStatus,
    event: Event,
) -> bool {
    &&& t == (PalletModel { operator_registry: t.operator_registry, events: t.events, ..s })
    &&& other_operators_stay(s, t, operator)
    &&& stands(t, operator, status)
    &&& t.operator_registry[operator].account == s.operator_registry[operator].account
    &&& t.operator_registry[operator].certificate_nonces
        == s.operator_registry[operator].certificate_nonces
    &&& t.events == s.events.push(event)
}

/// The operator has come to the state with a new certificate and a new event, and nothing else has
/// changed.
pub open spec fn only_certifies(
    s: PalletModel,
    t: PalletModel,
    operator: AccountId,
    nonce: u64,
    status: OperatorStatus,
    event: Event,
) -> bool {
    &&& t == (PalletModel {
        operator_registry: t.operator_registry,
        certificates: t.certificates,
        events: t.events,
        ..s
    })
    &&& other_operators_stay(s, t, operator)
    &&& other_numbers_stay(s.certificates, t.certificates, nonce)
    &&& t.certificates.contains_key(nonce)
    &&& stands(t, operator, status)
    &&& t.operator_registry[operator].account == s.operator_registry[operator].account
    &&& t.operator_registry[operator].certificate_nonces
        == s.operator_registry[operator].certificate_nonces.push(nonce)
    &&& t.events == s.events.push(event)
}

// ---------------------------------------------------------------------------------------------
// The way of an operator

/// Any account that is not registered may ask to join; it is then registered, without a certificate.
pub proof fn lemma_join(s: PalletModel, origin: Origin, when: BlockNumber)
    ensures
        ({
            let refusal = join_refusal(s, origin);
            let t = applied(s, CallModel::RequestJoin { origin, when });
            &&& refusal is Some ==> t == s
            &&& match origin {
                Origin::Signed(who) => {
                    &&& refusal is None <==> !s.operator_registry.contains_key(who)
                    &&& refusal is Some ==> refusal == Some(
                        DispatchError::Module(Error::AlreadyRegistered),
                    )
                    &&& refusal is None ==> {
                        &&& t == (PalletModel {
                            operator_registry: t.operator_registry,
                            events: t.events,
                            ..s
                        })
                        &&& other_operators_stay(s, t, who)
                        &&& stands(t, who, OperatorStatus::Requested)
                        &&& t.operator_registry[who].account == who
                        &&& t.operator_registry[who].certificate_nonces.len() == 0
                        &&& t.events == s.events.push(Event::JoinRequested { who, when })
                    }
                },
                _ => refusal == Some(DispatchError::<Error>::BadOrigin),
            }
        }),
{
}

/// The governance issues a certificate with a new nonce to an operator that asked to join, if it is
/// made out to that operator and there is room for its nonce.
pub proof fn lemma_certificate_issued(
    s: PalletModel,
    governance: bool,
    operator: AccountId,
    certificate: CertificateModel,
)
    ensures
        ({
            let refusal = issue_refusal(s, governance, operator, certificate);
            let t = applied(s, CallModel::IssueCertificate { governance, operator, certificate });
            let nonce = certificate.nonce;
            &&& refusal is None <==> governance && stands(s, operator, OperatorStatus::Requested)
                && !s.certificates.contains_key(nonce) && certificate.operator_account == operator@
                && s.operator_registry[operator].certificate_nonces.len() < 128
            &&& !governance ==> refusal == Some(DispatchError::Module(Error::NotAuthorized))
            &&& governance && !s.operator_registry.contains_key(operator) ==> refusal == Some(
                DispatchError::Module(Error::NotRegistered),
            )
            &&& governance && s.operator_registry.contains_key(operator) && refusal is Some
                ==> refusal == Some(DispatchError::Module(Error::InvalidStatus))
            &&& refusal is Some ==> t == s
            &&& refusal is None ==> only_certifies(
                s,
                t,
                operator,
                nonce,
                OperatorStatus::CertificateIssued,
                Event::CertificateIssued { operator, nonce },
            ) && t.certificates[nonce] == certificate
        }),
{
}

/// An operator confirms the stake for a certificate of its own, with a reference that fits; the
/// reference is then kept under the nonce of the certificate.
pub proof fn lemma_stake_confirmed(
    s: PalletModel,
    origin: Origin,
    reference: ReferenceModel,
    nonce: u64,
)
    ensures
        ({
            let refusal = confirm_refusal(
                s,
                origin,
                reference.tx_hash,
                reference.policy_id,
                reference.asset_name,
                nonce,
            );
            let t = applied(s, CallModel::ConfirmStake { origin, reference, nonce });
            &&& refusal is Some ==> t == s
            &&& match origin {
                Origin::Signed(who) => {
                    &&& refusal is None <==> stands(s, who, OperatorStatus::CertificateIssued)
                        && s.certificates.contains_key(nonce)
                        && s.operator_registry[who].certificate_nonces.contains(nonce)
                        && reference.tx_hash.len() <= 64 && reference.policy_id.len() <= 64
                        && reference.asset_name.len() <= 64
                    &&& !s.operator_registry.contains_key(who) ==> refusal == Some(
                        DispatchError::Module(Error::NotRegistered),
                    )
                    &&& s.operator_registry.contains_key(who) && refusal is Some ==> refusal == Some(
                        DispatchError::Module(Error::InvalidStatus),
                    )
                    &&& refusal is None ==> {
                        &&& only_moves(
                            s,
                            PalletModel { cardano_references: s.cardano_references, ..t },
                            who,
                            OperatorStatus::StakeConfirmed,
                            Event::StakeConfirmed { operator: who, nonce },
                        )
                        &&& t.cardano_references.contains_key(nonce)
                        &&& t.cardano_references[nonce] == reference
                        &&& other_numbers_stay(s.cardano_references, t.cardano_references, nonce)
                    }
                },
                _ => refusal == Some(DispatchError::<Error>::BadOrigin),
            }
        }),
{
}

/// The governance makes an operator with a confirmed stake active.
pub proof fn lemma_node_authorized(s: PalletModel, governance: bool, operator: AccountId)
    ensures
        ({
            let refusal = governance_refusal(
                s,
                governance,
                operator,
                OperatorStatus::StakeConfirmed,
            );
            let t = applied(s, CallModel::AuthorizeNode { governance, operator });
            &&& refusal is None <==> governance && stands(s, operator, OperatorStatus::StakeConfirmed)
            &&& !governance ==> refusal == Some(DispatchError::Module(Error::NotAuthorized))
            &&& governance && !s.operator_registry.contains_key(operator) ==> refusal == Some(
                DispatchError::Module(Error::NotRegistered),
            )
            &&& governance && s.operator_registry.contains_key(operator) && refusal is Some
                ==> refusal == Some(DispatchError::Module(Error::InvalidStatus))
            &&& refusal is Some ==> t == s
            &&& refusal is None ==> only_moves(
                s,
                t,
                operator,
                OperatorStatus::Active,
                Event::NodeAuthorized { operator },
            )
        }),
{
}

/// An active operator, and no other, may ask to retire.
pub proof fn lemma_retire_requested(s: PalletModel, origin: Origin)
    ensures
        ({
            let refusal = retire_refusal(s, origin);
            let t = applied(s, CallModel::RequestRetire { origin });
            &&& refusal is Some ==> t == s
            &&& match origin {
                Origin::Signed(who) => {
                    &&& refusal is None <==> stands(s, who, OperatorStatus::Active)
                    &&& !s.operator_registry.contains_key(who) ==> refusal == Some(
                        DispatchError::Module(Error::NotRegistered),
                    )
                    &&& s.operator_registry.contains_key(who) && refusal is Some ==> refusal == Some(
                        DispatchError::Module(Error::InvalidStatus),
                    )
                    &&& refusal is None ==> only_moves(
                        s,
                        t,
                        who,
                        OperatorStatus::PendingRetire,
                        Event::RetireRequested { operator: who },
                    )
                },
                _ => refusal == Some(DispatchError::<Error>::BadOrigin),
            }
        }),
{
}

/// The governance lets an operator retire that asked to, under a new nonce: it is given a certificate
/// for no stake that expires when the lock ends.
pub proof fn lemma_retire_authorized(
    s: PalletModel,
    governance: bool,
    operator: AccountId,
    nonce: u64,
    lock_until: u64,
)
    ensures
        ({
            let refusal = authorize_retire_refusal(s, governance, operator, nonce);
            let t = applied(
                s,
                CallModel::AuthorizeRetire { governance, operator, nonce, lock_until },
            );
            let certificate = t.certificates[nonce];
            &&& refusal is None <==> governance && stands(s, operator, OperatorStatus::PendingRetire)
                && !s.certificates.contains_key(nonce)
                && s.operator_registry[operator].certificate_nonces.len() < 128
            &&& !governance ==> refusal == Some(DispatchError::Module(Error::NotAuthorized))
            &&& governance && !s.operator_registry.contains_key(operator) ==> refusal == Some(
                DispatchError::Module(Error::NotRegistered),
            )
            &&& governance && s.operator_registry.contains_key(operator) && refusal is Some
                ==> refusal == Some(DispatchError::Module(Error::InvalidStatus))
            &&& refusal is Some ==> t == s
            &&& refusal is None ==> {
                &&& only_certifies(
                    s,
                    t,
                    operator,
                    nonce,
                    OperatorStatus::Retired,
                    Event::RetireAuthorized { operator, nonce },
                )
                &&& certificate.operator_account == operator@
                &&& certificate.stake_amount == 0
                &&& certificate.expiry == lock_until
                &&& certificate.nonce == nonce
                &&& certificate.cardano_stake_key_hash.len() == 0
                &&& certificate.sidechain_pubkey.len() == 0
            }
        }),
{
}

// ---------------------------------------------------------------------------------------------
// Slashing

/// Any account may propose to slash a registered operator, for a reason of at most 256 bytes. The
/// proposal gets the next id and starts without votes.
pub proof fn lemma_slash_proposed(
    s: PalletModel,
    origin: Origin,
    operator: AccountId,
    amount: u128,
    reason: Seq<u8>,
)
    ensures
        ({
            let refusal = slash_request_refusal(s, origin, operator, reason);
            let t = applied(s, CallModel::RequestSlash { origin, operator, amount, reason });
            let id = s.next_slash_proposal_id;
            let proposal = t.slash_proposals[id];
            &&& refusal is Some ==> t == s
            &&& match origin {
                Origin::Signed(who) => {
                    &&& refusal is None <==> s.operator_registry.contains_key(operator)
                        && reason.len() <= 256
                    &&& !s.operator_registry.contains_key(operator) ==> refusal == Some(
                        DispatchError::Module(Error::NotRegistered),
                    )
                    &&& s.operator_registry.contains_key(operator) && refusal is Some ==> refusal
                        == Some(DispatchError::Module(Error::InvalidStatus))
                    &&& refusal is None ==> {
                        &&& t == (PalletModel {
                            slash_proposals: t.slash_proposals,
                            next_slash_proposal_id: t.next_slash_proposal_id,
                            events: t.events,
                            ..s
                        })
                        &&& other_numbers_stay(s.slash_proposals, t.slash_proposals, id)
                        &&& t.slash_proposals.contains_key(id)
                        &&& proposal.proposer == who@
                        &&& proposal.target_operator == operator@
                        &&& proposal.amount == amount
                        &&& proposal.reason == reason
                        &&& proposal.approvals == 0
                        &&& proposal.rejections == 0
                        &&& id < u64::MAX ==> t.next_slash_proposal_id == id + 1
                        &&& id == u64::MAX ==> t.next_slash_proposal_id == 0
                        &&& t.events == s.events.push(
                            Event::SlashProposed { proposal_id: id, operator },
                        )
                    }
                },
                _ => refusal == Some(DispatchError::<Error>::BadOrigin),
            }
        }),
{
}

/// Only admins of the governance vote, on a proposal that is there, and only once.
pub proof fn lemma_vote_admitted(s: PalletModel, origin: Origin, id: u64)
    ensures
        ({
            let refusal = vote_refusal(s, origin, id);
            match origin {
                Origin::Signed(who) => {
                    let admin = s.governance_authority is Some
                        && s.governance_authority->0.admins.contains(who);
                    &&& refusal is None <==> admin && s.slash_proposals.contains_key(id)
                        && !s.slash_votes.contains_key((id, who))
                    &&& !admin ==> refusal == Some(
                        DispatchError::Module(Error::NotGovernanceAdmin),
                    )
                    &&& admin && !s.slash_proposals.contains_key(id) ==> refusal == Some(
                        DispatchError::Module(Error::ProposalNotFound),
                    )
                    &&& admin && s.slash_proposals.contains_key(id) && s.slash_votes.contains_key(
                        (id, who),
                    ) ==> refusal == Some(DispatchError::Module(Error::AlreadyVoted))
                },
                _ => refusal == Some(DispatchError::<Error>::BadOrigin),
            }
        }),
{
}

/// Nothing but the proposals, the votes and the events has changed, and of the votes only one is new.
pub open spec fn only_votes(s: PalletModel, t: PalletModel, id: u64, who: AccountId, vote: u8) -> bool {
    &&& t == (PalletModel {
        slash_proposals: t.slash_proposals,
        slash_votes: t.slash_votes,
        events: t.events,
        ..s
    })
    &&& t.slash_votes.contains_key((id, who))
    &&& t.slash_votes[(id, who)] == vote
    &&& forall|key: (u64, AccountId)|
        key != (id, who) ==> (#[trigger] t.slash_votes.contains_key(key)
            == s.slash_votes.contains_key(key) && (s.slash_votes.contains_key(key)
            ==> t.slash_votes[key] == s.slash_votes[key]))
    &&& other_numbers_stay(s.slash_proposals, t.slash_proposals, id)
}

proof fn lemma_new_voter(s: PalletModel, t: PalletModel, id: u64, who: AccountId, vote: u8)
    requires
        only_votes(s, t, id, who, vote),
        !s.slash_votes.contains_key((id, who)),
    ensures
        voters(t.slash_votes, id, vote) == voters(s.slash_votes, id, vote).insert(who),
        !voters(s.slash_votes, id, vote).contains(who),
{
    assert forall|admin: AccountId| admin != who implies #[trigger] t.slash_votes.contains_key(
        (id, admin),
    ) == s.slash_votes.contains_key((id, admin)) by {
        assert((id, admin) != (id, who));
    }
    assert(voters(t.slash_votes, id, vote) =~= voters(s.slash_votes, id, vote).insert(who));
}

/// An accepted approval is kept. Once as many admins as the threshold asks for have approved, the
/// slash of the proposed amount is approved for the proposed operator and the proposal is closed;
/// before that the proposal counts the approval and stays as it was otherwise.
pub proof fn lemma_approval_counts(s: PalletModel, who: AccountId, id: u64, operator: AccountId)
    requires
        votes_counted(s),
        vote_refusal(s, Origin::Signed(who), id) is None,
        s.slash_proposals[id].target_operator == operator@,
        voters(s.slash_votes, id, 1).len() < u32::MAX,
    ensures
        ({
            let t = applied(s, CallModel::ApproveSlash { origin: Origin::Signed(who), id });
            let before = s.slash_proposals[id];
            let after = t.slash_proposals[id];
            let approvals = voters(t.slash_votes, id, 1).len();
            let decided = approvals >= s.governance_authority->0.threshold;
            &&& approve_refusal(s, Origin::Signed(who), id) is None
            &&& only_votes(s, t, id, who, 1)
            &&& decided ==> !t.slash_proposals.contains_key(id) && t.events == s.events.push(
                Event::SlashApproved { proposal_id: id, operator, amount: before.amount },
            )
            &&& !decided ==> {
                &&& t.slash_proposals.contains_key(id)
                &&& after.approvals == approvals
                &&& after.rejections == before.rejections
                &&& after.proposer == before.proposer
                &&& after.target_operator == before.target_operator
                &&& after.amount == before.amount
                &&& after.reason == before.reason
                &&& t.events == s.events
            }
        }),
{
    lemma_account_read_back(operator);
    let t = applied(s, CallModel::ApproveSlash { origin: Origin::Signed(who), id });
    assert(s.slash_proposals.contains_key(id));
    assert(operator@.len() == 32);
    assert(only_votes(s, t, id, who, 1));
    lemma_new_voter(s, t, id, who, 1);
    assert(s.slash_proposals[id].approvals == capped(voters(s.slash_votes, id, 1).len()));
}

/// An accepted rejection is kept. Once as many admins as the threshold asks for have rejected, the
/// proposal is closed; before that the proposal counts the rejection and stays as it was otherwise.
pub proof fn lemma_rejection_counts(s: PalletModel, who: AccountId, id: u64)
    requires
        votes_counted(s),
        vote_refusal(s, Origin::Signed(who), id) is None,
        voters(s.slash_votes, id, 2).len() < u32::MAX,
    ensures
        ({
            let t = applied(s, CallModel::RejectSlash { origin: Origin::Signed(who), id });
            let before = s.slash_proposals[id];
            let after = t.slash_proposals[id];
            let rejections = voters(t.slash_votes, id, 2).len();
            let decided = rejections >= s.governance_authority->0.threshold;
            &&& only_votes(s, t, id, who, 2)
            &&& decided ==> !t.slash_proposals.contains_key(id) && t.events == s.events.push(
                Event::SlashRejected { proposal_id: id },
            )
            &&& !decided ==> {
                &&& t.slash_proposals.contains_key(id)
                &&& after.rejections == rejections
                &&& after.approvals == before.approvals
                &&& after.proposer == before.proposer
                &&& after.target_operator == before.target_operator
                &&& after.amount == before.amount
                &&& after.reason == before.reason
                &&& t.events == s.events
            }
        }),
{
    let t = applied(s, CallModel::RejectSlash { origin: Origin::Signed(who), id });
    assert(s.slash_proposals.contains_key(id));
    assert(only_votes(s, t, id, who, 2));
    lemma_new_voter(s, t, id, who, 2);
    assert(s.slash_proposals[id].rejections == capped(voters(s.slash_votes, id, 2).len()));
}

// ---------------------------------------------------------------------------------------------
// Governance

/// The operators that are active.
pub open spec fn active_set(s: PalletModel) -> Set<AccountId> {
    Set::new(|operator: AccountId| stands(s, operator, OperatorStatus::Active))
}

spec fn active_keys(m: Map<AccountId, OperatorModel>) -> Set<AccountId> {
    Set::new(
        |operator: AccountId| m.contains_key(operator) && m[operator].status
            == OperatorStatus::Active,
    )
}

proof fn lemma_active_listed(listed: Seq<(AccountId, OperatorModel)>)
    requires
        keys_ascend::<AccountId, OperatorModel>(listed),
    ensures
        active_keys(map_of(listed)).finite(),
        active_keys(map_of(listed)).len() == active_entries(listed),
    decreases listed.len(),
{
    lemma_active_entries(listed);
    if listed.len() == 0 {
        assert(active_keys(map_of(listed)) =~= Set::<AccountId>::empty());
    } else {
        let rest = listed.drop_last();
        lemma_active_listed(rest);
        lemma_map_drop_last::<AccountId, OperatorModel>(listed);
        lemma_map_entry::<AccountId, OperatorModel>(listed, listed.len() - 1);
        let before = active_keys(map_of(rest));
        assert(active_keys(map_of(listed)) =~= if listed.last().1.status == OperatorStatus::Active {
            before.insert(listed.last().0)
        } else {
            before
        });
        assert(!before.contains(listed.last().0));
    }
}

/// The governance may replace itself. Once there are as many active operators as end the bootstrap
/// phase, one of the new admins must be an active operator. Nothing but the authority changes.
pub proof fn lemma_governance_replaced(
    s: PalletModel,
    governance: bool,
    admins: Seq<AccountId>,
    threshold: u32,
)
    requires
        s.operator_registry.dom().finite(),
    ensures
        ({
            let refusal = governance_update_refusal(s, governance, admins);
            let t = applied(s, CallModel::UpdateGovernance { governance, admins, threshold });
            let included = exists|i: int|
                0 <= i < admins.len() && stands(s, #[trigger] admins[i], OperatorStatus::Active);
            let young = active_set(s).len() < s.bootstrap_operator_count;
            &&& refusal is None <==> governance && (young || included)
            &&& !governance ==> refusal == Some(DispatchError::Module(Error::NotAuthorized))
            &&& governance && refusal is Some ==> refusal == Some(
                DispatchError::Module(Error::InsufficientOperatorInclusion),
            )
            &&& refusal is Some ==> t == s
            &&& refusal is None ==> {
                &&& t == (PalletModel {
                    governance_authority: t.governance_authority,
                    events: t.events,
                    ..s
                })
                &&& t.governance_authority matches Some(authority) && authority.admins == admins
                    && authority.threshold == threshold
                &&& t.events == s.events.push(Event::GovernanceAuthorityUpdated)
            }
        }),
{
    lemma_listed::<AccountId, OperatorModel>(s.operator_registry);
    lemma_active_listed(listing::<AccountId, OperatorModel>(s.operator_registry));
    assert(active_set(s) =~= active_keys(s.operator_registry));
    assert(active_operators(s) == active_set(s).len());
    if some_active(s, admins) {
        let i = choose|i: int| 0 <= i < admins.len() && is_active(s, #[trigger] admins[i]);
        assert(stands(s, admins[i], OperatorStatus::Active));
    }
    if exists|i: int|
        0 <= i < admins.len() && stands(s, #[trigger] admins[i], OperatorStatus::Active) {
        let i = choose|i: int|
            0 <= i < admins.len() && stands(s, #[trigger] admins[i], OperatorStatus::Active);
        assert(is_active(s, admins[i]));
    }
    assert(bootstrapped(s) <==> active_set(s).len() >= s.bootstrap_operator_count);
}

} // verus!
