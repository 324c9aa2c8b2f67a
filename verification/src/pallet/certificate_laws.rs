//! What the certificates of nodes promise.
use crate::bounded::truncated;
use crate::model::bytes_precede;
use crate::pallet::laws::{applied, CallModel};
use crate::pallet::slashing::{withdrawal_confirmation_refusal, withdrawal_refusal};
use crate::pallet::staking::{
    admin_threshold, node_call_refusal, retire_certificate_refusal, signatures_for, staking_refusal,
};
use crate::pallet::state::{Error, EventModel, PalletModel};
use crate::pallet::types::{
    OracleNodeStakingState, StakingCertModel, TermsModel, WithdrawalCertModel,
};
use crate::pallet::vote_laws::{group_empty, other_groups_stay, others_stay, same_but_state};
use crate::primitives::{wrap32, AccountId, AdminSig, BlockNumber, DispatchError, Origin};
use crate::sorted_map::{group, lemma_listed, lemma_listing_len, lemma_map_entry, listing, map_of};
use vstd::prelude::*;

verus! {

/// The admins that have signed for a node.
pub open spec fn signers(sigs: Map<(AccountId, AccountId), AdminSig>, node: AccountId) -> Set<
    AccountId,
> {
    Set::new(|who: AccountId| sigs.contains_key((node, who)))
}

/// `taken` are the signatures of the first signers for a node, at most 32 and in the order of the
/// signers, who are named by `order`.
pub open spec fn first_signatures(
    taken: Seq<AdminSig>,
    order: Seq<AccountId>,
    sigs: Map<(AccountId, AccountId), AdminSig>,
    node: AccountId,
) -> bool {
    let count = signers(sigs, node).len();
    &&& order.len() == taken.len()
    &&& taken.len() == if count <= 32 {
        count
    } else {
        32
    }
    &&& forall|i: int, j: int|
        #![trigger order[i], order[j]]
        0 <= i < j < order.len() ==> bytes_precede(order[i]@, order[j]@)
    &&& forall|i: int|
        0 <= i < order.len() ==> sigs.contains_key((node, #[trigger] order[i])) && taken[i] == sigs[(
            node,
            order[i],
        )]
    &&& forall|who: AccountId, i: int|
        #![trigger sigs.contains_key((node, who)), order[i]]
        sigs.contains_key((node, who)) && !order.contains(who) && 0 <= i < order.len()
            ==> bytes_precede(order[i]@, who@)
}

proof fn lemma_collected(sigs: Map<(AccountId, AccountId), AdminSig>, node: AccountId) -> (order: Seq<
    AccountId,
>)
    requires
        group(sigs, node).dom().finite(),
    ensures
        signers(sigs, node).finite(),
        signatures_for(sigs, node).len() == signers(sigs, node).len(),
        first_signatures(truncated(signatures_for(sigs, node), 32), order, sigs, node),
{
    let m = group(sigs, node);
    lemma_listed::<AccountId, AdminSig>(m);
    let listed = listing::<AccountId, AdminSig>(m);
    lemma_listing_len::<AccountId, AdminSig>(listed);
    assert(signers(sigs, node) =~= m.dom());
    let taken = truncated(signatures_for(sigs, node), 32);
    let order = Seq::new(taken.len(), |i: int| listed[i].0);
    assert forall|i: int| 0 <= i < order.len() implies sigs.contains_key((node, #[trigger] order[i]))
        && taken[i] == sigs[(node, order[i])] by {
        lemma_map_entry::<AccountId, AdminSig>(listed, i);
    }
    assert forall|i: int, j: int|
        #![trigger order[i], order[j]]
        0 <= i < j < order.len() implies bytes_precede(order[i]@, order[j]@) by {
        assert(<AccountId as crate::model::Key>::precedes(listed[i].0, listed[j].0));
    }
    assert forall|who: AccountId, i: int|
        #![trigger sigs.contains_key((node, who)), order[i]]
        sigs.contains_key((node, who)) && !order.contains(who) && 0 <= i
            < order.len() implies bytes_precede(order[i]@, who@) by {
        assert(map_of(listed).contains_key(who));
        let k = choose|k: int| 0 <= k < listed.len() && (#[trigger] listed[k]).0 == who;
        if k < order.len() {
            assert(order[k] == who);
        }
        assert(<AccountId as crate::model::Key>::precedes(listed[i].0, listed[k].0));
    }
    order
}

/// How many admins have to sign: as many as nodes are needed for a consensus, or two.
pub open spec fn signatures_needed(s: PalletModel) -> int {
    match s.min_nodes_for_trusted_aggregation {
        Some(nodes) => nodes as int,
        None => 2,
    }
}

// ---------------------------------------------------------------------------------------------
// Staking

/// An admin may sign the staking of an inactive authorized node other than itself, once, and only for
/// the terms that are pending for the node: the amount, the lock and both keys. Anything else is
/// refused, and the storage stays.
pub proof fn lemma_staking_signable(
    s: PalletModel,
    origin: Origin,
    when: BlockNumber,
    node: AccountId,
    terms: TermsModel,
    sig: AdminSig,
)
    ensures
        ({
            let refusal = staking_refusal(s, origin, node, terms);
            let nodes = s.authorized_oracle_nodes;
            let pending = s.staking_approval_info[node];
            let differs = s.staking_approval_info.contains_key(node) && (terms.stake_amount
                != pending.stake_amount || terms.lock_until != pending.lock_until
                || terms.cardano_pkh_admin != pending.cardano_pkh_admin
                || terms.cardano_pkh_aggregation != pending.cardano_pkh_aggregation);
            let open = nodes.contains_key(node) && nodes[node].state
                == OracleNodeStakingState::Inactive;
            &&& refusal is Some ==> applied(
                s,
                CallModel::SignStaking { origin, when, node, terms, sig },
            ) == s
            &&& match origin {
                Origin::Signed(who) => {
                    &&& refusal is None <==> who != node && open && !differs
                        && !s.staking_approval_sigs.contains_key((node, who))
                    &&& who == node ==> refusal == Some(
                        DispatchError::Module(Error::CannotVoteForSelf),
                    )
                    &&& who != node && !nodes.contains_key(node) ==> refusal == Some(
                        DispatchError::Module(Error::UnauthorizedNode),
                    )
                    &&& who != node && nodes.contains_key(node) && !open ==> refusal == Some(
                        DispatchError::Module(Error::InvalidNodeState),
                    )
                    &&& who != node && open && differs ==> refusal == Some(
                        DispatchError::Module(Error::ProposalMismatch),
                    )
                    &&& who != node && open && !differs && s.staking_approval_sigs.contains_key(
                        (node, who),
                    ) ==> refusal == Some(DispatchError::Module(Error::AlreadySigned))
                },
                _ => refusal == Some(DispatchError::<Error>::BadOrigin),
            }
        }),
{
}

/// An accepted signature is kept until enough admins have signed. The one that completes them issues
/// the certificate for the signed terms, with the signatures that were collected, approves the node on
/// these terms, and clears what was pending.
pub proof fn lemma_staking_signature_counts(
    s: PalletModel,
    who: AccountId,
    when: BlockNumber,
    node: AccountId,
    terms: TermsModel,
    sig: AdminSig,
)
    requires
        staking_refusal(s, Origin::Signed(who), node, terms) is None,
        group(s.staking_approval_sigs, node).dom().finite(),
        group(s.staking_approval_sigs, node).dom().len() < u32::MAX,
    ensures
        ({
            let t = applied(
                s,
                CallModel::SignStaking { origin: Origin::Signed(who), when, node, terms, sig },
            );
            let sigs = s.staking_approval_sigs.insert((node, who), sig);
            let enough = signers(sigs, node).len() >= signatures_needed(s);
            let before = s.authorized_oracle_nodes[node];
            let after = t.authorized_oracle_nodes[node];
            let certificate = t.issued_staking_certs[node];
            &&& t == (PalletModel {
                authorized_oracle_nodes: t.authorized_oracle_nodes,
                staking_approval_info: t.staking_approval_info,
                staking_approval_sigs: t.staking_approval_sigs,
                issued_staking_certs: t.issued_staking_certs,
                events: t.events,
                ..s
            })
            &&& others_stay(s.authorized_oracle_nodes, t.authorized_oracle_nodes, node)
            &&& others_stay(s.staking_approval_info, t.staking_approval_info, node)
            &&& others_stay(s.issued_staking_certs, t.issued_staking_certs, node)
            &&& other_groups_stay(s.staking_approval_sigs, t.staking_approval_sigs, node)
            &&& !enough ==> {
                &&& t.authorized_oracle_nodes == s.authorized_oracle_nodes
                &&& t.issued_staking_certs == s.issued_staking_certs
                &&& t.staking_approval_sigs == sigs
                &&& t.staking_approval_info.contains_key(node)
                &&& t.staking_approval_info[node] == terms
                &&& t.events == s.events.push(
                    EventModel::StakingApprovalSigned { node, signer: who, when },
                )
            }
            &&& enough ==> {
                &&& t.authorized_oracle_nodes.contains_key(node)
                &&& after.state == OracleNodeStakingState::StakingApproved
                &&& after.stake_amount == terms.stake_amount
                &&& after.cardano_pkh_admin == terms.cardano_pkh_admin
                &&& after.cardano_pkh_aggregation == terms.cardano_pkh_aggregation
                &&& after.stake_activated_at == before.stake_activated_at
                &&& t.issued_staking_certs.contains_key(node)
                &&& certificate.terms == terms
                &&& exists|order: Seq<AccountId>| #[trigger]
                    first_signatures(certificate.sigs, order, sigs, node)
                &&& !t.staking_approval_info.contains_key(node)
                &&& group_empty(t.staking_approval_sigs, node)
                &&& t.events == s.events.push(
                    EventModel::StakingCertificateIssued { node, certificate, when },
                )
            }
        }),
{
    let sigs = s.staking_approval_sigs.insert((node, who), sig);
    let before = group(s.staking_approval_sigs, node);
    assert(group(sigs, node) =~= before.insert(who, sig));
    assert(group(sigs, node).dom() =~= before.dom().insert(who));
    assert(signers(sigs, node) =~= group(sigs, node).dom());
    let order = lemma_collected(sigs, node);
    let count = signatures_for(sigs, node).len();
    assert(count <= u32::MAX);
    assert(wrap32(count) == count);
    assert(admin_threshold(s) == signatures_needed(s));
    if count >= signatures_needed(s) {
        let t = applied(s, CallModel::SignStaking { origin: Origin::Signed(who), when, node, terms, sig });
        assert(t.issued_staking_certs[node].sigs == truncated(signatures_for(sigs, node), 32));
        assert(first_signatures(t.issued_staking_certs[node].sigs, order, sigs, node));
    }
}

/// A node confirms its stake once it is approved; it is then active, with the stake it has, and its
/// certificate is used up.
pub proof fn lemma_stake_confirmation(
    s: PalletModel,
    origin: Origin,
    when: BlockNumber,
    tx_hash: [u8; 32],
)
    ensures
        ({
            let refusal = node_call_refusal(s, origin, OracleNodeStakingState::StakingApproved);
            let t = applied(s, CallModel::ConfirmStake { origin, when, tx_hash });
            let nodes = s.authorized_oracle_nodes;
            &&& refusal is Some ==> t == s
            &&& match origin {
                Origin::Signed(who) => {
                    &&& refusal is None <==> nodes.contains_key(who) && nodes[who].state
                        == OracleNodeStakingState::StakingApproved
                    &&& !nodes.contains_key(who) ==> refusal == Some(
                        DispatchError::Module(Error::UnauthorizedNode),
                    )
                    &&& nodes.contains_key(who) && refusal is Some ==> refusal == Some(
                        DispatchError::Module(Error::InvalidNodeState),
                    )
                    &&& refusal is None ==> {
                        &&& t == (PalletModel {
                            authorized_oracle_nodes: t.authorized_oracle_nodes,
                            issued_staking_certs: t.issued_staking_certs,
                            events: t.events,
                            ..s
                        })
                        &&& t.authorized_oracle_nodes.contains_key(who)
                        &&& t.authorized_oracle_nodes[who].state
                            == OracleNodeStakingState::ActiveStake
                        &&& same_but_state(nodes[who], t.authorized_oracle_nodes[who])
                        &&& others_stay(nodes, t.authorized_oracle_nodes, who)
                        &&& !t.issued_staking_certs.contains_key(who)
                        &&& others_stay(s.issued_staking_certs, t.issued_staking_certs, who)
                        &&& t.events == s.events.push(
                            EventModel::StakingConfirmed {
                                node: who,
                                tx_hash,
                                stake_amount: nodes[who].stake_amount,
                                when,
                            },
                        )
                    }
                },
                _ => refusal == Some(DispatchError::<Error>::BadOrigin),
            }
        }),
{
}

/// An active node, and no other, may ask to retire; it is then retiring.
pub proof fn lemma_retire_request(s: PalletModel, origin: Origin, when: BlockNumber)
    ensures
        ({
            let refusal = node_call_refusal(s, origin, OracleNodeStakingState::ActiveStake);
            let t = applied(s, CallModel::RequestRetire { origin, when });
            let nodes = s.authorized_oracle_nodes;
            &&& refusal is Some ==> t == s
            &&& match origin {
                Origin::Signed(who) => {
                    &&& refusal is None <==> nodes.contains_key(who) && nodes[who].state
                        == OracleNodeStakingState::ActiveStake
                    &&& refusal is None ==> {
                        &&& t == (PalletModel {
                            authorized_oracle_nodes: t.authorized_oracle_nodes,
                            events: t.events,
                            ..s
                        })
                        &&& t.authorized_oracle_nodes.contains_key(who)
                        &&& t.authorized_oracle_nodes[who].state
                            == OracleNodeStakingState::RetireStake
                        &&& same_but_state(nodes[who], t.authorized_oracle_nodes[who])
                        &&& others_stay(nodes, t.authorized_oracle_nodes, who)
                        &&& t.events == s.events.push(
                            EventModel::RetireRequested { node: who, when },
                        )
                    }
                },
                _ => refusal == Some(DispatchError::<Error>::BadOrigin),
            }
        }),
{
}

/// A retire certificate of the root for an authorized node is an event and nothing else.
pub proof fn lemma_retire_certificate(
    s: PalletModel,
    origin: Origin,
    when: BlockNumber,
    node: AccountId,
    lock_until: BlockNumber,
)
    ensures
        ({
            let refusal = retire_certificate_refusal(s, origin, node);
            let t = applied(s, CallModel::CertifyRetire { origin, when, node, lock_until });
            &&& refusal is None <==> origin == Origin::Root && s.authorized_oracle_nodes.contains_key(
                node,
            )
            &&& refusal is Some ==> t == s
            &&& origin != Origin::Root ==> refusal == Some(DispatchError::<Error>::BadOrigin)
            &&& refusal is None ==> t == PalletModel { events: t.events, ..s } && t.events
                == s.events.push(EventModel::RetireCertificateIssued { node, lock_until, when })
        }),
{
}

// ---------------------------------------------------------------------------------------------
// Withdrawal

/// An admin may sign the withdrawal of an authorized node other than itself, once, for at most its
/// stake and only for the amount that is pending for the node. Anything else is refused, and the
/// storage stays.
pub proof fn lemma_withdrawal_signable(
    s: PalletModel,
    origin: Origin,
    when: BlockNumber,
    node: AccountId,
    amount: u64,
    sig: AdminSig,
)
    ensures
        ({
            let refusal = withdrawal_refusal(s, origin, node, amount);
            let nodes = s.authorized_oracle_nodes;
            let known = nodes.contains_key(node);
            let fits = amount <= nodes[node].stake_amount;
            let differs = s.withdrawal_approval_info.contains_key(node) && amount
                != s.withdrawal_approval_info[node];
            &&& refusal is Some ==> applied(
                s,
                CallModel::SignWithdrawal { origin, when, node, amount, sig },
            ) == s
            &&& match origin {
                Origin::Signed(who) => {
                    &&& refusal is None <==> who != node && known && fits && !differs
                        && !s.withdrawal_approval_sigs.contains_key((node, who))
                    &&& who == node ==> refusal == Some(
                        DispatchError::Module(Error::CannotVoteForSelf),
                    )
                    &&& who != node && !known ==> refusal == Some(
                        DispatchError::Module(Error::UnauthorizedNode),
                    )
                    &&& who != node && known && !fits ==> refusal == Some(
                        DispatchError::Module(Error::ApprovedAmountInvalid),
                    )
                    &&& who != node && known && fits && differs ==> refusal == Some(
                        DispatchError::Module(Error::ProposalMismatch),
                    )
                    &&& who != node && known && fits && !differs
                        && s.withdrawal_approval_sigs.contains_key((node, who)) ==> refusal == Some(
                        DispatchError::Module(Error::AlreadySigned),
                    )
                },
                _ => refusal == Some(DispatchError::<Error>::BadOrigin),
            }
        }),
{
}

/// An accepted signature is kept until enough admins have signed. The one that completes them issues
/// the certificate for the signed amount, with the signatures that were collected, and clears what was
/// pending. The node itself stays as it is.
pub proof fn lemma_withdrawal_signature_counts(
    s: PalletModel,
    who: AccountId,
    when: BlockNumber,
    node: AccountId,
    amount: u64,
    sig: AdminSig,
)
    requires
        withdrawal_refusal(s, Origin::Signed(who), node, amount) is None,
        group(s.withdrawal_approval_sigs, node).dom().finite(),
        group(s.withdrawal_approval_sigs, node).dom().len() < u32::MAX,
    ensures
        ({
            let t = applied(
                s,
                CallModel::SignWithdrawal { origin: Origin::Signed(who), when, node, amount, sig },
            );
            let sigs = s.withdrawal_approval_sigs.insert((node, who), sig);
            let enough = signers(sigs, node).len() >= signatures_needed(s);
            let certificate = t.issued_withdrawal_certs[node];
            &&& t == (PalletModel {
                withdrawal_approval_info: t.withdrawal_approval_info,
                withdrawal_approval_sigs: t.withdrawal_approval_sigs,
                issued_withdrawal_certs: t.issued_withdrawal_certs,
                events: t.events,
                ..s
            })
            &&& others_stay(s.withdrawal_approval_info, t.withdrawal_approval_info, node)
            &&& others_stay(s.issued_withdrawal_certs, t.issued_withdrawal_certs, node)
            &&& other_groups_stay(s.withdrawal_approval_sigs, t.withdrawal_approval_sigs, node)
            &&& !enough ==> {
                &&& t.issued_withdrawal_certs == s.issued_withdrawal_certs
                &&& t.withdrawal_approval_sigs == sigs
                &&& t.withdrawal_approval_info.contains_key(node)
                &&& t.withdrawal_approval_info[node] == amount
                &&& t.events == s.events.push(
                    EventModel::WithdrawalApprovalSigned { node, signer: who, when },
                )
            }
            &&& enough ==> {
                &&& t.issued_withdrawal_certs.contains_key(node)
                &&& certificate.approved_amount == amount
                &&& exists|order: Seq<AccountId>| #[trigger]
                    first_signatures(certificate.sigs, order, sigs, node)
                &&& !t.withdrawal_approval_info.contains_key(node)
                &&& group_empty(t.withdrawal_approval_sigs, node)
                &&& t.events == s.events.push(
                    EventModel::WithdrawalCertificateIssued { node, certificate, when },
                )
            }
        }),
{
    let sigs = s.withdrawal_approval_sigs.insert((node, who), sig);
    let before = group(s.withdrawal_approval_sigs, node);
    assert(group(sigs, node) =~= before.insert(who, sig));
    assert(group(sigs, node).dom() =~= before.dom().insert(who));
    assert(signers(sigs, node) =~= group(sigs, node).dom());
    let order = lemma_collected(sigs, node);
    let count = signatures_for(sigs, node).len();
    assert(count <= u32::MAX);
    assert(wrap32(count) == count);
    assert(admin_threshold(s) == signatures_needed(s));
    if count >= signatures_needed(s) {
        let t = applied(s, CallModel::SignWithdrawal { origin: Origin::Signed(who), when, node, amount, sig });
        assert(t.issued_withdrawal_certs[node].sigs == truncated(signatures_for(sigs, node), 32));
        assert(first_signatures(t.issued_withdrawal_certs[node].sigs, order, sigs, node));
    }
}

/// A node confirms its withdrawal with amounts that make up its stake; it is then inactive, and its
/// certificate is used up.
pub proof fn lemma_withdrawal_confirmation(
    s: PalletModel,
    origin: Origin,
    when: BlockNumber,
    tx_hash: [u8; 32],
    released: u64,
    penalty: u64,
)
    ensures
        ({
            let refusal = withdrawal_confirmation_refusal(s, origin, released, penalty);
            let t = applied(
                s,
                CallModel::ConfirmWithdrawal { origin, when, tx_hash, released, penalty },
            );
            let nodes = s.authorized_oracle_nodes;
            &&& refusal is Some ==> t == s
            &&& match origin {
                Origin::Signed(who) => {
                    &&& refusal is None <==> nodes.contains_key(who) && nodes[who].stake_amount
                        - penalty == released
                    &&& !nodes.contains_key(who) ==> refusal == Some(
                        DispatchError::Module(Error::UnauthorizedNode),
                    )
                    &&& nodes.contains_key(who) && refusal is Some ==> refusal == Some(
                        DispatchError::Module(Error::AmountMismatch),
                    )
                    &&& refusal is None ==> {
                        &&& t == (PalletModel {
                            authorized_oracle_nodes: t.authorized_oracle_nodes,
                            issued_withdrawal_certs: t.issued_withdrawal_certs,
                            events: t.events,
                            ..s
                        })
                        &&& t.authorized_oracle_nodes.contains_key(who)
                        &&& t.authorized_oracle_nodes[who].state
                            == OracleNodeStakingState::Inactive
                        &&& same_but_state(nodes[who], t.authorized_oracle_nodes[who])
                        &&& others_stay(nodes, t.authorized_oracle_nodes, who)
                        &&& !t.issued_withdrawal_certs.contains_key(who)
                        &&& others_stay(s.issued_withdrawal_certs, t.issued_withdrawal_certs, who)
                        &&& t.events == s.events.push(
                            EventModel::WithdrawalConfirmed {
                                node: who,
                                tx_hash,
                                released_amount: released,
                                penalty_amount: penalty,
                                when,
                            },
                        )
                    }
                },
                _ => refusal == Some(DispatchError::<Error>::BadOrigin),
            }
        }),
{
}

// ---------------------------------------------------------------------------------------------
// Histories

/// The storage after a number of calls.
pub open spec fn after(s: PalletModel, calls: Seq<CallModel>) -> PalletModel
    decreases calls.len(),
{
    if calls.len() == 0 {
        s
    } else {
        applied(after(s, calls.drop_last()), calls.last())
    }
}

/// One of the calls is the signature of an admin on the staking of a node, for these terms.
pub open spec fn signed_terms(
    calls: Seq<CallModel>,
    node: AccountId,
    signer: AccountId,
    terms: TermsModel,
    sig: AdminSig,
) -> bool {
    exists|i: int|
        0 <= i < calls.len() && ((#[trigger] calls[i]) matches CallModel::SignStaking {
            origin,
            node: for_node,
            terms: for_terms,
            sig: given,
            ..
        } && origin == Origin::Signed(signer) && for_node == node && for_terms == terms && given
            == sig)
}

/// One of the calls is the signature of an admin on the withdrawal of a node, for this amount.
pub open spec fn signed_amount(
    calls: Seq<CallModel>,
    node: AccountId,
    signer: AccountId,
    amount: u64,
    sig: AdminSig,
) -> bool {
    exists|i: int|
        0 <= i < calls.len() && ((#[trigger] calls[i]) matches CallModel::SignWithdrawal {
            origin,
            node: for_node,
            amount: for_amount,
            sig: given,
            ..
        } && origin == Origin::Signed(signer) && for_node == node && for_amount == amount && given
            == sig)
}

spec fn pending_signed(t: PalletModel, calls: Seq<CallModel>) -> bool {
    &&& forall|node: AccountId, signer: AccountId| #[trigger]
        t.staking_approval_sigs.contains_key((node, signer)) ==> t.staking_approval_info.contains_key(
            node,
        ) && signed_terms(
            calls,
            node,
            signer,
            t.staking_approval_info[node],
            t.staking_approval_sigs[(node, signer)],
        )
    &&& forall|node: AccountId, signer: AccountId| #[trigger]
        t.withdrawal_approval_sigs.contains_key((node, signer))
            ==> t.withdrawal_approval_info.contains_key(node) && signed_amount(
            calls,
            node,
            signer,
            t.withdrawal_approval_info[node],
            t.withdrawal_approval_sigs[(node, signer)],
        )
}

/// Some admin gave the signature, for the node and the terms.
pub open spec fn terms_signed_by_some(
    calls: Seq<CallModel>,
    node: AccountId,
    terms: TermsModel,
    sig: AdminSig,
) -> bool {
    exists|signer: AccountId| #[trigger] signed_terms(calls, node, signer, terms, sig)
}

/// Some admin gave the signature, for the node and the amount.
pub open spec fn amount_signed_by_some(
    calls: Seq<CallModel>,
    node: AccountId,
    amount: u64,
    sig: AdminSig,
) -> bool {
    exists|signer: AccountId| #[trigger] signed_amount(calls, node, signer, amount, sig)
}

/// Every signature of the certificate was given for its node and its terms.
pub open spec fn staking_backed(
    calls: Seq<CallModel>,
    node: AccountId,
    certificate: StakingCertModel,
) -> bool {
    forall|k: int|
        0 <= k < certificate.sigs.len() ==> terms_signed_by_some(
            calls,
            node,
            certificate.terms,
            #[trigger] certificate.sigs[k],
        )
}

/// Every signature of the certificate was given for its node and its amount.
pub open spec fn withdrawal_backed(
    calls: Seq<CallModel>,
    node: AccountId,
    certificate: WithdrawalCertModel,
) -> bool {
    forall|k: int|
        0 <= k < certificate.sigs.len() ==> amount_signed_by_some(
            calls,
            node,
            certificate.approved_amount,
            #[trigger] certificate.sigs[k],
        )
}

spec fn sound(t: PalletModel, calls: Seq<CallModel>) -> bool {
    &&& t.staking_approval_sigs.dom().finite()
    &&& t.withdrawal_approval_sigs.dom().finite()
    &&& pending_signed(t, calls)
    &&& forall|node: AccountId| #[trigger]
        t.issued_staking_certs.contains_key(node) ==> staking_backed(
            calls,
            node,
            t.issued_staking_certs[node],
        )
    &&& forall|node: AccountId| #[trigger]
        t.issued_withdrawal_certs.contains_key(node) ==> withdrawal_backed(
            calls,
            node,
            t.issued_withdrawal_certs[node],
        )
}

proof fn lemma_later_terms(
    calls: Seq<CallModel>,
    call: CallModel,
    node: AccountId,
    signer: AccountId,
    terms: TermsModel,
    sig: AdminSig,
)
    requires
        signed_terms(calls, node, signer, terms, sig),
    ensures
        signed_terms(calls.push(call), node, signer, terms, sig),
{
    let i = choose|i: int|
        0 <= i < calls.len() && ((#[trigger] calls[i]) matches CallModel::SignStaking {
            origin,
            node: for_node,
            terms: for_terms,
            sig: given,
            ..
        } && origin == Origin::Signed(signer) && for_node == node && for_terms == terms && given
            == sig);
    assert(calls.push(call)[i] == calls[i]);
}

proof fn lemma_later_amount(
    calls: Seq<CallModel>,
    call: CallModel,
    node: AccountId,
    signer: AccountId,
    amount: u64,
    sig: AdminSig,
)
    requires
        signed_amount(calls, node, signer, amount, sig),
    ensures
        signed_amount(calls.push(call), node, signer, amount, sig),
{
    let i = choose|i: int|
        0 <= i < calls.len() && ((#[trigger] calls[i]) matches CallModel::SignWithdrawal {
            origin,
            node: for_node,
            amount: for_amount,
            sig: given,
            ..
        } && origin == Origin::Signed(signer) && for_node == node && for_amount == amount && given
            == sig);
    assert(calls.push(call)[i] == calls[i]);
}

proof fn lemma_group_finite(sigs: Map<(AccountId, AccountId), AdminSig>, node: AccountId)
    requires
        sigs.dom().finite(),
    ensures
        group(sigs, node).dom().finite(),
{
    let second = |key: (AccountId, AccountId)| key.1;
    let all = sigs.dom().map(second);
    sigs.dom().lemma_map_finite(second);
    assert(group(sigs, node).dom().subset_of(all)) by {
        assert forall|who: AccountId| group(sigs, node).dom().contains(who) implies all.contains(
            who,
        ) by {
            assert(sigs.dom().contains((node, who)) && second((node, who)) == who);
        }
    }
    vstd::set_lib::lemma_set_subset_finite(all, group(sigs, node).dom());
}

/// What earlier calls have signed stays signed.
proof fn lemma_sound_later(t: PalletModel, calls: Seq<CallModel>, call: CallModel)
    requires
        sound(t, calls),
    ensures
        sound(t, calls.push(call)),
{
    let more = calls.push(call);
    assert forall|node: AccountId, signer: AccountId| #[trigger]
        t.staking_approval_sigs.contains_key((node, signer)) implies signed_terms(
        more,
        node,
        signer,
        t.staking_approval_info[node],
        t.staking_approval_sigs[(node, signer)],
    ) by {
        lemma_later_terms(
            calls,
            call,
            node,
            signer,
            t.staking_approval_info[node],
            t.staking_approval_sigs[(node, signer)],
        );
    }
    assert forall|node: AccountId, signer: AccountId| #[trigger]
        t.withdrawal_approval_sigs.contains_key((node, signer)) implies signed_amount(
        more,
        node,
        signer,
        t.withdrawal_approval_info[node],
        t.withdrawal_approval_sigs[(node, signer)],
    ) by {
        lemma_later_amount(
            calls,
            call,
            node,
            signer,
            t.withdrawal_approval_info[node],
            t.withdrawal_approval_sigs[(node, signer)],
        );
    }
    assert forall|node: AccountId| #[trigger]
        t.issued_staking_certs.contains_key(node) implies staking_backed(
        more,
        node,
        t.issued_staking_certs[node],
    ) by {
        let certificate = t.issued_staking_certs[node];
        assert forall|k: int| 0 <= k < certificate.sigs.len() implies terms_signed_by_some(
            more,
            node,
            certificate.terms,
            #[trigger] certificate.sigs[k],
        ) by {
            assert(terms_signed_by_some(calls, node, certificate.terms, certificate.sigs[k]));
            let signer = choose|signer: AccountId|
                signed_terms(calls, node, signer, certificate.terms, certificate.sigs[k]);
            lemma_later_terms(
                calls,
                call,
                node,
                signer,
                certificate.terms,
                certificate.sigs[k],
            );
        }
    }
    assert forall|node: AccountId| #[trigger]
        t.issued_withdrawal_certs.contains_key(node) implies withdrawal_backed(
        more,
        node,
        t.issued_withdrawal_certs[node],
    ) by {
        let certificate = t.issued_withdrawal_certs[node];
        let amount = certificate.approved_amount;
        assert forall|k: int| 0 <= k < certificate.sigs.len() implies amount_signed_by_some(
            more,
            node,
            amount,
            #[trigger] certificate.sigs[k],
        ) by {
            assert(amount_signed_by_some(calls, node, amount, certificate.sigs[k]));
            let signer = choose|signer: AccountId|
                signed_amount(calls, node, signer, amount, certificate.sigs[k]);
            lemma_later_amount(calls, call, node, signer, amount, certificate.sigs[k]);
        }
    }
}

proof fn lemma_sound_staking(
    s: PalletModel,
    calls: Seq<CallModel>,
    who: AccountId,
    when: BlockNumber,
    node: AccountId,
    terms: TermsModel,
    sig: AdminSig,
)
    requires
        sound(s, calls),
        staking_refusal(s, Origin::Signed(who), node, terms) is None,
        signed_terms(calls, node, who, terms, sig),
    ensures
        sound(
            applied(s, CallModel::SignStaking { origin: Origin::Signed(who), when, node, terms, sig }),
            calls,
        ),
{
    let t = applied(s, CallModel::SignStaking { origin: Origin::Signed(who), when, node, terms, sig });
    let sigs = s.staking_approval_sigs.insert((node, who), sig);
    assert forall|signer: AccountId| #[trigger] sigs.contains_key((node, signer)) implies signed_terms(
        calls,
        node,
        signer,
        terms,
        sigs[(node, signer)],
    ) by {
        if signer != who {
            assert(s.staking_approval_sigs.contains_key((node, signer)));
        }
    }
    lemma_group_finite(sigs, node);
    let order = lemma_collected(sigs, node);
    let taken = truncated(signatures_for(sigs, node), 32);
    if t.staking_approval_info.contains_key(node) {
        assert(t.staking_approval_sigs == sigs);
    } else {
        vstd::set_lib::lemma_set_subset_finite(sigs.dom(), t.staking_approval_sigs.dom());
        let certificate = t.issued_staking_certs[node];
        assert(certificate.terms == terms && certificate.sigs == taken);
        assert forall|k: int| 0 <= k < certificate.sigs.len() implies terms_signed_by_some(
            calls,
            node,
            certificate.terms,
            #[trigger] certificate.sigs[k],
        ) by {
            assert(signed_terms(calls, node, order[k], terms, taken[k]));
        }
        assert(staking_backed(calls, node, certificate));
    }
    assert forall|other: AccountId, signer: AccountId| #[trigger]
        t.staking_approval_sigs.contains_key(
            (other, signer),
        ) implies t.staking_approval_info.contains_key(other) && signed_terms(
        calls,
        other,
        signer,
        t.staking_approval_info[other],
        t.staking_approval_sigs[(other, signer)],
    ) by {
        assert(sigs.contains_key((other, signer)));
        if other != node {
            assert(s.staking_approval_sigs.contains_key((other, signer)));
        }
    }
    assert forall|other: AccountId| #[trigger]
        t.issued_staking_certs.contains_key(other) implies staking_backed(
        calls,
        other,
        t.issued_staking_certs[other],
    ) by {
        if other != node || t.staking_approval_info.contains_key(node) {
            assert(s.issued_staking_certs.contains_key(other));
        }
    }
}

proof fn lemma_sound_withdrawal(
    s: PalletModel,
    calls: Seq<CallModel>,
    who: AccountId,
    when: BlockNumber,
    node: AccountId,
    amount: u64,
    sig: AdminSig,
)
    requires
        sound(s, calls),
        withdrawal_refusal(s, Origin::Signed(who), node, amount) is None,
        signed_amount(calls, node, who, amount, sig),
    ensures
        sound(
            applied(
                s,
                CallModel::SignWithdrawal { origin: Origin::Signed(who), when, node, amount, sig },
            ),
            calls,
        ),
{
    let t = applied(
        s,
        CallModel::SignWithdrawal { origin: Origin::Signed(who), when, node, amount, sig },
    );
    let sigs = s.withdrawal_approval_sigs.insert((node, who), sig);
    assert forall|signer: AccountId| #[trigger]
        sigs.contains_key((node, signer)) implies signed_amount(
        calls,
        node,
        signer,
        amount,
        sigs[(node, signer)],
    ) by {
        if signer != who {
            assert(s.withdrawal_approval_sigs.contains_key((node, signer)));
        }
    }
    lemma_group_finite(sigs, node);
    let order = lemma_collected(sigs, node);
    let taken = truncated(signatures_for(sigs, node), 32);
    if t.withdrawal_approval_info.contains_key(node) {
        assert(t.withdrawal_approval_sigs == sigs);
    } else {
        vstd::set_lib::lemma_set_subset_finite(sigs.dom(), t.withdrawal_approval_sigs.dom());
        let certificate = t.issued_withdrawal_certs[node];
        assert(certificate.approved_amount == amount && certificate.sigs == taken);
        assert forall|k: int| 0 <= k < certificate.sigs.len() implies amount_signed_by_some(
            calls,
            node,
            certificate.approved_amount,
            #[trigger] certificate.sigs[k],
        ) by {
            assert(signed_amount(calls, node, order[k], amount, taken[k]));
        }
        assert(withdrawal_backed(calls, node, certificate));
    }
    assert forall|other: AccountId, signer: AccountId| #[trigger]
        t.withdrawal_approval_sigs.contains_key(
            (other, signer),
        ) implies t.withdrawal_approval_info.contains_key(other) && signed_amount(
        calls,
        other,
        signer,
        t.withdrawal_approval_info[other],
        t.withdrawal_approval_sigs[(other, signer)],
    ) by {
        assert(sigs.contains_key((other, signer)));
        if other != node {
            assert(s.withdrawal_approval_sigs.contains_key((other, signer)));
        }
    }
    assert forall|other: AccountId| #[trigger]
        t.issued_withdrawal_certs.contains_key(other) implies withdrawal_backed(
        calls,
        other,
        t.issued_withdrawal_certs[other],
    ) by {
        if other != node || t.withdrawal_approval_info.contains_key(node) {
            assert(s.issued_withdrawal_certs.contains_key(other));
        }
    }
}

proof fn lemma_history_sound(s: PalletModel, calls: Seq<CallModel>)
    requires
        s.staking_approval_sigs == Map::<(AccountId, AccountId), AdminSig>::empty(),
        s.withdrawal_approval_sigs == Map::<(AccountId, AccountId), AdminSig>::empty(),
        s.issued_staking_certs == Map::<AccountId, StakingCertModel>::empty(),
        s.issued_withdrawal_certs == Map::<AccountId, WithdrawalCertModel>::empty(),
    ensures
        sound(after(s, calls), calls),
    decreases calls.len(),
{
    if calls.len() > 0 {
        let earlier = calls.drop_last();
        let call = calls.last();
        let before = after(s, earlier);
        lemma_history_sound(s, earlier);
        lemma_sound_later(before, earlier, call);
        assert(earlier.push(call) =~= calls);
        assert(calls[calls.len() - 1] == call);
        match call {
            CallModel::SignStaking { origin, when, node, terms, sig } => {
                if staking_refusal(before, origin, node, terms) is None {
                    let who = origin->Signed_0;
                    assert(origin == Origin::Signed(who));
                    assert(signed_terms(calls, node, who, terms, sig));
                    lemma_sound_staking(before, calls, who, when, node, terms, sig);
                }
            },
            CallModel::SignWithdrawal { origin, when, node, amount, sig } => {
                if withdrawal_refusal(before, origin, node, amount) is None {
                    let who = origin->Signed_0;
                    assert(origin == Origin::Signed(who));
                    assert(signed_amount(calls, node, who, amount, sig));
                    lemma_sound_withdrawal(before, calls, who, when, node, amount, sig);
                }
            },
            _ => {
                let t = after(s, calls);
                assert forall|node: AccountId| #[trigger]
                    t.issued_staking_certs.contains_key(node) implies staking_backed(
                    calls,
                    node,
                    t.issued_staking_certs[node],
                ) by {
                    assert(before.issued_staking_certs.contains_key(node));
                }
                assert forall|node: AccountId| #[trigger]
                    t.issued_withdrawal_certs.contains_key(node) implies withdrawal_backed(
                    calls,
                    node,
                    t.issued_withdrawal_certs[node],
                ) by {
                    assert(before.issued_withdrawal_certs.contains_key(node));
                }
            },
        }
    }
}

/// Whatever calls are made on storage without approvals and certificates: every signature of a staking
/// certificate was given for its node and for exactly its terms, and so was every signature that is
/// pending for a node.
pub proof fn lemma_staking_signatures_genuine(s: PalletModel, calls: Seq<CallModel>, node: AccountId)
    requires
        s.staking_approval_sigs == Map::<(AccountId, AccountId), AdminSig>::empty(),
        s.withdrawal_approval_sigs == Map::<(AccountId, AccountId), AdminSig>::empty(),
        s.issued_staking_certs == Map::<AccountId, StakingCertModel>::empty(),
        s.issued_withdrawal_certs == Map::<AccountId, WithdrawalCertModel>::empty(),
    ensures
        ({
            let t = after(s, calls);
            &&& t.issued_staking_certs.contains_key(node) ==> staking_backed(
                calls,
                node,
                t.issued_staking_certs[node],
            )
            &&& forall|signer: AccountId| #[trigger]
                t.staking_approval_sigs.contains_key((node, signer))
                    ==> t.staking_approval_info.contains_key(node) && signed_terms(
                    calls,
                    node,
                    signer,
                    t.staking_approval_info[node],
                    t.staking_approval_sigs[(node, signer)],
                )
        }),
{
    lemma_history_sound(s, calls);
}

/// Whatever calls are made on storage without approvals and certificates: every signature of a
/// withdrawal certificate was given for its node and for exactly its amount, and so was every signature
/// that is pending for a node.
pub proof fn lemma_withdrawal_signatures_genuine(
    s: PalletModel,
    calls: Seq<CallModel>,
    node: AccountId,
)
    requires
        s.staking_approval_sigs == Map::<(AccountId, AccountId), AdminSig>::empty(),
        s.withdrawal_approval_sigs == Map::<(AccountId, AccountId), AdminSig>::empty(),
        s.issued_staking_certs == Map::<AccountId, StakingCertModel>::empty(),
        s.issued_withdrawal_certs == Map::<AccountId, WithdrawalCertModel>::empty(),
    ensures
        ({
            let t = after(s, calls);
            &&& t.issued_withdrawal_certs.contains_key(node) ==> withdrawal_backed(
                calls,
                node,
                t.issued_withdrawal_certs[node],
            )
            &&& forall|signer: AccountId| #[trigger]
                t.withdrawal_approval_sigs.contains_key((node, signer))
                    ==> t.withdrawal_approval_info.contains_key(node) && signed_amount(
                    calls,
                    node,
                    signer,
                    t.withdrawal_approval_info[node],
                    t.withdrawal_approval_sigs[(node, signer)],
                )
        }),
{
    lemma_history_sound(s, calls);
}

} // verus!
