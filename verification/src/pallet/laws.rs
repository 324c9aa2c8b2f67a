//! What every call keeps, and what calls promise together.
use crate::pallet::calls::{
    configured, node_deregistered, node_registered, prices_refusal, prices_stored, root_refusal,
    signatures_stored, submission_refusal, with_prices,
};
use crate::pallet::finalize::{finalized, none_later, stored_prices};
use crate::pallet::messages::OracleMessageModel;
use crate::pallet::slashing::{
    approve_count, entries_with, lemma_entries_with, slash_request_refusal, slash_requested, tallied,
    total_nodes, vote_cast, vote_refusal, vote_slash_refusal, votes_for,
    withdrawal_confirmation_refusal, withdrawal_confirmed, withdrawal_refusal, withdrawal_signed,
};
use crate::pallet::staking::{
    admin_threshold, node_call_refusal, retire_certificate_refusal, retire_requested,
    signatures_for, stake_confirmed, staking_refusal, staking_signed,
};
use crate::pallet::state::{
    empty_pallet, founding_node, with_founders, EventModel, GenesisConfig, PalletModel,
};
use crate::pallet::types::{NodeModel, OracleNodeStakingState, SlashVote, TermsModel};
use crate::primitives::{AccountId, AdminSig, BlockNumber, Origin};
use crate::sorted_map::{
    group, keys_ascend, lemma_listed, lemma_map_drop_last, lemma_map_entry, listing, map_of,
    without_group,
};
use crate::types::config::node::{ConsensusModel, PairModel, RewardModel};
use vstd::prelude::*;

verus! {

// ---------------------------------------------------------------------------------------------
// Calls as values

/// What can happen to the storage: a call with its origin and block, or the end of a block.
pub enum CallModel {
    StorePrices { origin: Origin, when: BlockNumber, prices: Seq<(PairModel, u64)> },
    StoreSignatures {
        origin: Origin,
        when: BlockNumber,
        signatures: Seq<(OracleMessageModel, Seq<u8>)>,
    },
    SetConfig {
        origin: Origin,
        when: BlockNumber,
        consensus: ConsensusModel,
        channels: Seq<(Seq<u8>, Seq<u16>)>,
        reward: Option<RewardModel>,
    },
    Register { origin: Origin, when: BlockNumber, node: AccountId },
    Deregister { origin: Origin, when: BlockNumber, node: AccountId },
    SignStaking {
        origin: Origin,
        when: BlockNumber,
        node: AccountId,
        terms: TermsModel,
        sig: AdminSig,
    },
    ConfirmStake { origin: Origin, when: BlockNumber, tx_hash: [u8; 32] },
    RequestRetire { origin: Origin, when: BlockNumber },
    CertifyRetire {
        origin: Origin,
        when: BlockNumber,
        node: AccountId,
        lock_until: BlockNumber,
    },
    RequestSlash { origin: Origin, when: BlockNumber, node: AccountId, amount: u64 },
    VoteSlash { origin: Origin, when: BlockNumber, node: AccountId, vote: SlashVote },
    SignWithdrawal {
        origin: Origin,
        when: BlockNumber,
        node: AccountId,
        amount: u64,
        sig: AdminSig,
    },
    ConfirmWithdrawal {
        origin: Origin,
        when: BlockNumber,
        tx_hash: [u8; 32],
        released: u64,
        penalty: u64,
    },
    Finalize { block: BlockNumber, timestamp_ms: u64 },
}

/// The storage after a call. A refused call leaves it as it is.
pub open spec fn applied(s: PalletModel, call: CallModel) -> PalletModel {
    match call {
        CallModel::StorePrices { origin, when, prices } => if prices_refusal(
            s,
            origin,
            prices.len(),
        ) is Some {
            s
        } else {
            prices_stored(s, origin->Signed_0, when, prices)
        },
        CallModel::StoreSignatures { origin, when, signatures } => if submission_refusal(
            s,
            origin,
        ) is Some {
            s
        } else {
            signatures_stored(s, origin->Signed_0, when, signatures)
        },
        CallModel::SetConfig { origin, when, consensus, channels, reward } => if root_refusal(
            origin,
        ) is Some {
            s
        } else {
            configured(s, when, consensus, channels, reward)
        },
        CallModel::Register { origin, when, node } => if root_refusal(origin) is Some {
            s
        } else {
            node_registered(s, when, node)
        },
        CallModel::Deregister { origin, when, node } => if root_refusal(origin) is Some {
            s
        } else {
            node_deregistered(s, when, node)
        },
        CallModel::SignStaking { origin, when, node, terms, sig } => if staking_refusal(
            s,
            origin,
            node,
            terms,
        ) is Some {
            s
        } else {
            staking_signed(s, origin->Signed_0, when, node, terms, sig)
        },
        CallModel::ConfirmStake { origin, when, tx_hash } => if node_call_refusal(
            s,
            origin,
            OracleNodeStakingState::StakingApproved,
        ) is Some {
            s
        } else {
            stake_confirmed(s, origin->Signed_0, when, tx_hash)
        },
        CallModel::RequestRetire { origin, when } => if node_call_refusal(
            s,
            origin,
            OracleNodeStakingState::ActiveStake,
        ) is Some {
            s
        } else {
            retire_requested(s, origin->Signed_0, when)
        },
        CallModel::CertifyRetire { origin, when, node, lock_until } =>
            if retire_certificate_refusal(s, origin, node) is Some {
            s
        } else {
            PalletModel {
                events: s.events.push(
                    EventModel::RetireCertificateIssued { node, lock_until, when },
                ),
                ..s
            }
        },
        CallModel::RequestSlash { origin, when, node, amount } => if slash_request_refusal(
            s,
            origin,
            node,
            amount,
        ) is Some {
            s
        } else {
            slash_requested(s, origin->Signed_0, when, node, amount)
        },
        CallModel::VoteSlash { origin, when, node, vote } => if vote_slash_refusal(
            s,
            origin,
            when,
            node,
            vote,
        ) is Some {
            s
        } else {
            tallied(vote_cast(s, origin->Signed_0, when, node, vote), when, node)
        },
        CallModel::SignWithdrawal { origin, when, node, amount, sig } => if withdrawal_refusal(
            s,
            origin,
            node,
            amount,
        ) is Some {
            s
        } else {
            withdrawal_signed(s, origin->Signed_0, when, node, amount, sig)
        },
        CallModel::ConfirmWithdrawal { origin, when, tx_hash, released, penalty } =>
            if withdrawal_confirmation_refusal(s, origin, released, penalty) is Some {
            s
        } else {
            withdrawal_confirmed(s, origin->Signed_0, when, tx_hash, released, penalty)
        },
        CallModel::Finalize { block, timestamp_ms } => finalized(s, block, timestamp_ms),
    }
}

// ---------------------------------------------------------------------------------------------
// What every call keeps

/// Some admin has signed for the node.
pub open spec fn signed_for(sigs: Map<(AccountId, AccountId), AdminSig>, node: AccountId) -> bool {
    exists|signer: AccountId| #[trigger] sigs.contains_key((node, signer))
}

/// An approval is pending for a node exactly while signatures for it are.
pub open spec fn approvals_match<V>(
    pending: Map<AccountId, V>,
    sigs: Map<(AccountId, AccountId), AdminSig>,
) -> bool {
    forall|node: AccountId| #[trigger] pending.contains_key(node) <==> signed_for(sigs, node)
}

/// No node signs for itself.
pub open spec fn none_for_self<V>(entries: Map<(AccountId, AccountId), V>) -> bool {
    forall|node: AccountId| !#[trigger] entries.contains_key((node, node))
}

/// A node whose slashing is voted on has a slash proposal, for less than its stake.
pub open spec fn votes_have_proposals(s: PalletModel) -> bool {
    forall|node: AccountId| #[trigger]
        s.authorized_oracle_nodes.contains_key(node) && s.authorized_oracle_nodes[node].state
            == OracleNodeStakingState::SlashVoting ==> s.slash_proposals.contains_key(node)
            && s.slash_proposals[node].slash_amount < s.authorized_oracle_nodes[node].stake_amount
}

/// Votes are only kept for nodes with a slash proposal.
pub open spec fn kept_votes_have_proposals(s: PalletModel) -> bool {
    forall|node: AccountId, voter: AccountId| #[trigger]
        s.slash_votes.contains_key((node, voter)) ==> s.slash_proposals.contains_key(node)
}

/// The stake and the keys of a node are those of the terms.
pub open spec fn staked_on(info: NodeModel, terms: TermsModel) -> bool {
    &&& info.stake_amount == terms.stake_amount
    &&& info.cardano_pkh_admin == terms.cardano_pkh_admin
    &&& info.cardano_pkh_aggregation == terms.cardano_pkh_aggregation
}

/// A node that is approved to stake has a certificate issued, and it is for its stake and keys.
pub open spec fn approved_are_certified(s: PalletModel) -> bool {
    forall|node: AccountId| #[trigger]
        s.authorized_oracle_nodes.contains_key(node) && s.authorized_oracle_nodes[node].state
            == OracleNodeStakingState::StakingApproved ==> s.issued_staking_certs.contains_key(node)
            && staked_on(s.authorized_oracle_nodes[node], s.issued_staking_certs[node].terms)
}

/// The storage is consistent.
pub open spec fn consistent(s: PalletModel) -> bool {
    &&& approvals_match(s.staking_approval_info, s.staking_approval_sigs)
    &&& approvals_match(s.withdrawal_approval_info, s.withdrawal_approval_sigs)
    &&& none_for_self(s.staking_approval_sigs)
    &&& none_for_self(s.withdrawal_approval_sigs)
    &&& none_for_self(s.slash_votes)
    &&& votes_have_proposals(s)
    &&& kept_votes_have_proposals(s)
    &&& approved_are_certified(s)
}

/// Storage starts consistent.
pub proof fn lemma_empty_consistent()
    ensures
        consistent(empty_pallet()),
{
}

proof fn lemma_founders(nodes: Map<AccountId, NodeModel>, founders: Seq<AccountId>, node: AccountId)
    ensures
        with_founders(nodes, founders).contains_key(node) <==> (
        nodes.contains_key(node) || founders.contains(node)),
        founders.contains(node) ==> with_founders(nodes, founders)[node]
            == founding_node(),
        !founders.contains(node) ==> with_founders(nodes, founders)[node]
            == nodes[node],
    decreases founders.len(),
{
    if founders.len() > 0 {
        let rest = founders.drop_last();
        lemma_founders(nodes, rest, node);
        assert(founders =~= rest.push(founders.last()));
        if rest.contains(node) {
            let i = choose|i: int| 0 <= i < rest.len() && rest[i] == node;
            assert(founders[i] == node);
        }
        if founders.contains(node) && node != founders.last() {
            let i = choose|i: int| 0 <= i < founders.len() && founders[i] == node;
            assert(rest[i] == node);
        }
        assert(founders[founders.len() - 1] == founders.last());
    }
}

/// The genesis authorizes the founding nodes as active, and keeps the storage consistent.
pub proof fn lemma_genesis(config: GenesisConfig, s: PalletModel)
    requires
        consistent(s),
    ensures
        consistent(config.built(s)),
        forall|i: int|
            0 <= i < config.authorized_nodes@.len() ==> config.built(
                s,
            ).authorized_oracle_nodes.contains_key(#[trigger] config.authorized_nodes@[i])
                && config.built(s).authorized_oracle_nodes[config.authorized_nodes@[i]].state
                == OracleNodeStakingState::ActiveStake,
{
    let founders = config.authorized_nodes@;
    let t = config.built(s);
    assert forall|node: AccountId| #[trigger]
        t.authorized_oracle_nodes.contains_key(node) implies founders.contains(node) || (
    s.authorized_oracle_nodes.contains_key(node) && t.authorized_oracle_nodes[node]
        == s.authorized_oracle_nodes[node]) by {
        lemma_founders(s.authorized_oracle_nodes, founders, node);
    }
    assert forall|node: AccountId| founders.contains(node) implies #[trigger]
        t.authorized_oracle_nodes.contains_key(node) && t.authorized_oracle_nodes[node].state
            == OracleNodeStakingState::ActiveStake by {
        lemma_founders(s.authorized_oracle_nodes, founders, node);
    }
    assert forall|i: int| 0 <= i < founders.len() implies founders.contains(
        #[trigger] founders[i],
    ) by {}
}

proof fn lemma_sign<V>(
    pending: Map<AccountId, V>,
    sigs: Map<(AccountId, AccountId), AdminSig>,
    node: AccountId,
    who: AccountId,
    value: V,
    sig: AdminSig,
)
    requires
        approvals_match(pending, sigs),
        none_for_self(sigs),
        who != node,
    ensures
        approvals_match(pending.insert(node, value), sigs.insert((node, who), sig)),
        none_for_self(sigs.insert((node, who), sig)),
        approvals_match(pending.remove(node), without_group(sigs.insert((node, who), sig), node)),
        none_for_self(without_group(sigs.insert((node, who), sig), node)),
{
    let more = sigs.insert((node, who), sig);
    let fewer = without_group(more, node);
    assert forall|other: AccountId| #[trigger]
        pending.insert(node, value).contains_key(other) <==> signed_for(more, other) by {
        if other == node {
            assert(more.contains_key((node, who)));
        } else {
            assert(pending.contains_key(other) <==> signed_for(sigs, other));
            if signed_for(sigs, other) {
                let signer = choose|signer: AccountId| #[trigger]
                    sigs.contains_key((other, signer));
                assert(more.contains_key((other, signer)));
            }
            if signed_for(more, other) {
                let signer = choose|signer: AccountId| #[trigger]
                    more.contains_key((other, signer));
                assert(sigs.contains_key((other, signer)));
            }
        }
    }
    assert forall|other: AccountId| #[trigger]
        pending.remove(node).contains_key(other) <==> signed_for(fewer, other) by {
        if other != node {
            assert(pending.contains_key(other) <==> signed_for(sigs, other));
            if signed_for(sigs, other) {
                let signer = choose|signer: AccountId| #[trigger]
                    sigs.contains_key((other, signer));
                assert(fewer.contains_key((other, signer)));
            }
        }
        if signed_for(fewer, other) {
            let signer = choose|signer: AccountId| #[trigger] fewer.contains_key((other, signer));
            assert(other != node);
            assert(sigs.contains_key((other, signer)));
        }
    }
}

/// Every call keeps the storage consistent.
#[verifier::rlimit(40)]
pub proof fn lemma_consistency_kept(s: PalletModel, call: CallModel)
    requires
        consistent(s),
    ensures
        consistent(applied(s, call)),
{
    match call {
        CallModel::SignStaking { origin, when, node, terms, sig } => {
            if staking_refusal(s, origin, node, terms) is None {
                lemma_sign(
                    s.staking_approval_info,
                    s.staking_approval_sigs,
                    node,
                    origin->Signed_0,
                    terms,
                    sig,
                );
            }
        },
        CallModel::SignWithdrawal { origin, when, node, amount, sig } => {
            if withdrawal_refusal(s, origin, node, amount) is None {
                lemma_sign(
                    s.withdrawal_approval_info,
                    s.withdrawal_approval_sigs,
                    node,
                    origin->Signed_0,
                    amount,
                    sig,
                );
            }
        },
        CallModel::VoteSlash { origin, when, node, vote } => {
            if vote_slash_refusal(s, origin, when, node, vote) is None {
                assert(s.authorized_oracle_nodes.contains_key(node));
                assert(s.slash_proposals.contains_key(node));
            }
        },
        _ => {},
    }
}

/// In consistent storage a vote is never refused for want of a slash proposal: it is accepted
/// exactly when the voter may cast it.
pub proof fn lemma_votes_are_counted(
    s: PalletModel,
    origin: Origin,
    when: BlockNumber,
    node: AccountId,
    vote: SlashVote,
)
    requires
        consistent(s),
    ensures
        vote_slash_refusal(s, origin, when, node, vote) == vote_refusal(s, origin, node),
{
    if vote_refusal(s, origin, node) is None {
        assert(s.authorized_oracle_nodes.contains_key(node));
        assert(s.slash_proposals.contains_key(node));
    }
}

// ---------------------------------------------------------------------------------------------
// The life of a node

/// The states that a call may take a node to.
pub open spec fn may_become(from: OracleNodeStakingState, to: OracleNodeStakingState) -> bool {
    ||| from == to
    ||| to == OracleNodeStakingState::Inactive
    ||| from == OracleNodeStakingState::Inactive && to == OracleNodeStakingState::StakingApproved
    ||| from == OracleNodeStakingState::StakingApproved && to
        == OracleNodeStakingState::ActiveStake
    ||| from == OracleNodeStakingState::ActiveStake && to == OracleNodeStakingState::RetireStake
    ||| from == OracleNodeStakingState::ActiveStake && to == OracleNodeStakingState::SlashVoting
    ||| from == OracleNodeStakingState::RetireStake && to == OracleNodeStakingState::SlashVoting
    ||| from == OracleNodeStakingState::SlashVoting && to == OracleNodeStakingState::SlashApproved
    ||| from == OracleNodeStakingState::SlashVoting && to == OracleNodeStakingState::RetireStake
}

/// A node that stays authorized moves only along the edges of its life cycle, and a node that a call
/// authorizes starts inactive.
pub proof fn lemma_node_life_cycle(s: PalletModel, call: CallModel, node: AccountId)
    requires
        applied(s, call).authorized_oracle_nodes.contains_key(node),
    ensures
        s.authorized_oracle_nodes.contains_key(node) ==> may_become(
            s.authorized_oracle_nodes[node].state,
            applied(s, call).authorized_oracle_nodes[node].state,
        ),
        !s.authorized_oracle_nodes.contains_key(node) ==> applied(
            s,
            call,
        ).authorized_oracle_nodes[node].state == OracleNodeStakingState::Inactive,
{
}

/// Only the root authorizes nodes and removes them.
pub proof fn lemma_only_root_authorizes(s: PalletModel, call: CallModel, node: AccountId)
    requires
        s.authorized_oracle_nodes.contains_key(node) != applied(
            s,
            call,
        ).authorized_oracle_nodes.contains_key(node),
    ensures
        (match call {
            CallModel::Register { origin, .. } => origin == Origin::Root,
            CallModel::Deregister { origin, .. } => origin == Origin::Root,
            _ => false,
        }),
{
}

/// The stake of a node changes only with a staking certificate and when it is registered.
pub proof fn lemma_stake_changes(s: PalletModel, call: CallModel, node: AccountId)
    requires
        s.authorized_oracle_nodes.contains_key(node),
        applied(s, call).authorized_oracle_nodes.contains_key(node),
        s.authorized_oracle_nodes[node].stake_amount != applied(
            s,
            call,
        ).authorized_oracle_nodes[node].stake_amount,
    ensures
        (match call {
            CallModel::Register { node: registered, .. } => registered == node,
            CallModel::SignStaking { node: staking, terms, .. } => staking == node && applied(
                s,
                call,
            ).authorized_oracle_nodes[node].stake_amount == terms.stake_amount && applied(
                s,
                call,
            ).issued_staking_certs.contains_key(node),
            _ => false,
        }),
{
}

/// Events are only ever added.
pub proof fn lemma_events_grow(s: PalletModel, call: CallModel)
    ensures
        s.events.len() <= applied(s, call).events.len(),
        applied(s, call).events.take(s.events.len() as int) == s.events,
{
    assert(applied(s, call).events.take(s.events.len() as int) =~= s.events);
}

// ---------------------------------------------------------------------------------------------
// Slash votes

/// The accounts that voted in one way on the slashing of a node.
pub open spec fn slash_voters(
    votes: Map<(AccountId, AccountId), SlashVote>,
    node: AccountId,
    vote: SlashVote,
) -> Set<AccountId> {
    Set::new(|voter: AccountId| votes.contains_key((node, voter)) && votes[(node, voter)] == vote)
}

/// The keys of a map with a value.
spec fn keys_with(m: Map<AccountId, SlashVote>, vote: SlashVote) -> Set<AccountId> {
    Set::new(|voter: AccountId| m.contains_key(voter) && m[voter] == vote)
}

proof fn lemma_listed_voters(s: Seq<(AccountId, SlashVote)>, vote: SlashVote)
    requires
        keys_ascend::<AccountId, SlashVote>(s),
    ensures
        keys_with(map_of(s), vote).finite(),
        keys_with(map_of(s), vote).len() == entries_with(s, vote),
    decreases s.len(),
{
    lemma_entries_with(s, vote);
    if s.len() == 0 {
        assert(keys_with(map_of(s), vote) =~= Set::<AccountId>::empty());
    } else {
        let rest = s.drop_last();
        lemma_listed_voters(rest, vote);
        lemma_map_drop_last::<AccountId, SlashVote>(s);
        lemma_map_entry::<AccountId, SlashVote>(s, s.len() - 1);
        let before = keys_with(map_of(rest), vote);
        assert(keys_with(map_of(s), vote) =~= if s.last().1 == vote {
            before.insert(s.last().0)
        } else {
            before
        });
        assert(!before.contains(s.last().0));
    }
}

/// Every account that voted on the slashing of a node is counted once.
pub proof fn lemma_voters_counted_once(
    votes: Map<(AccountId, AccountId), SlashVote>,
    node: AccountId,
    vote: SlashVote,
)
    requires
        group(votes, node).dom().finite(),
    ensures
        slash_voters(votes, node, vote).finite(),
        votes_for(votes, node, vote) == slash_voters(votes, node, vote).len(),
{
    let m = group(votes, node);
    lemma_listed::<AccountId, SlashVote>(m);
    lemma_listed_voters(listing::<AccountId, SlashVote>(m), vote);
    assert(slash_voters(votes, node, vote) =~= keys_with(m, vote));
}

/// A node is slashed only by a vote of another node that brings the approving votes to half of the
/// nodes or more.
pub proof fn lemma_slash_needs_majority(s: PalletModel, call: CallModel, node: AccountId)
    requires
        s.authorized_oracle_nodes.contains_key(node),
        s.authorized_oracle_nodes[node].state != OracleNodeStakingState::SlashApproved,
        applied(s, call).authorized_oracle_nodes.contains_key(node),
        applied(s, call).authorized_oracle_nodes[node].state
            == OracleNodeStakingState::SlashApproved,
    ensures
        (match call {
            CallModel::VoteSlash { origin: Origin::Signed(voter), when, node: slashed, vote } => {
                &&& slashed == node
                &&& voter != node
                &&& s.authorized_oracle_nodes.contains_key(voter)
                &&& 2 * approve_count(vote_cast(s, voter, when, node, vote), node) >= total_nodes(s)
            },
            _ => false,
        }),
{
}

// ---------------------------------------------------------------------------------------------
// Certificates

/// An issued staking certificate carries the signatures of as many admins as the threshold asks for,
/// or of 32 where it asks for more.
pub proof fn lemma_staking_certificate_signed(
    s: PalletModel,
    who: AccountId,
    when: BlockNumber,
    node: AccountId,
    terms: TermsModel,
    sig: AdminSig,
)
    requires
        s.authorized_oracle_nodes.contains_key(node),
        s.authorized_oracle_nodes[node].state == OracleNodeStakingState::Inactive,
        staking_signed(s, who, when, node, terms, sig).authorized_oracle_nodes[node].state
            == OracleNodeStakingState::StakingApproved,
    ensures
        ({
            let certs = staking_signed(s, who, when, node, terms, sig).issued_staking_certs;
            let threshold = if admin_threshold(s) < 32 {
                admin_threshold(s)
            } else {
                32
            };
            &&& certs.contains_key(node)
            &&& certs[node].terms == terms
            &&& certs[node].sigs.len() >= threshold
        }),
{
}

/// A withdrawal certificate that a call issues is for at most the stake of the node, and carries the
/// signatures of as many admins as the threshold asks for, or of 32 where it asks for more.
pub proof fn lemma_withdrawal_certificate_signed(
    s: PalletModel,
    origin: Origin,
    when: BlockNumber,
    node: AccountId,
    amount: u64,
    sig: AdminSig,
)
    requires
        ({
            let certs = applied(
                s,
                CallModel::SignWithdrawal { origin, when, node, amount, sig },
            ).issued_withdrawal_certs;
            certs.contains_key(node) && (!s.issued_withdrawal_certs.contains_key(node)
                || certs[node] != s.issued_withdrawal_certs[node])
        }),
    ensures
        ({
            let certs = applied(
                s,
                CallModel::SignWithdrawal { origin, when, node, amount, sig },
            ).issued_withdrawal_certs;
            let threshold = if admin_threshold(s) < 32 {
                admin_threshold(s)
            } else {
                32
            };
            &&& certs[node].approved_amount == amount
            &&& amount <= s.authorized_oracle_nodes[node].stake_amount
            &&& certs[node].sigs.len() >= threshold
        }),
{
}

/// The signature that completes a certificate is one of those that were collected.
pub proof fn lemma_signature_collected(
    sigs: Map<(AccountId, AccountId), AdminSig>,
    node: AccountId,
    who: AccountId,
    sig: AdminSig,
)
    requires
        group(sigs, node).dom().finite(),
    ensures
        signatures_for(sigs.insert((node, who), sig), node).contains(sig),
{
    let m = group(sigs.insert((node, who), sig), node);
    assert(m =~= group(sigs, node).insert(who, sig));
    lemma_listed::<AccountId, AdminSig>(m);
    let listed = listing::<AccountId, AdminSig>(m);
    assert(map_of(listed).contains_key(who));
    let i = choose|i: int| 0 <= i < listed.len() && (#[trigger] listed[i]).0 == who;
    lemma_map_entry::<AccountId, AdminSig>(listed, i);
    assert(signatures_for(sigs.insert((node, who), sig), node)[i] == sig);
}

/// Confirming a stake or a withdrawal uses up the certificate for it.
pub proof fn lemma_confirmation_clears(
    s: PalletModel,
    who: AccountId,
    when: BlockNumber,
    tx_hash: [u8; 32],
    released: u64,
    penalty: u64,
)
    ensures
        !stake_confirmed(s, who, when, tx_hash).issued_staking_certs.contains_key(who),
        !withdrawal_confirmed(
            s,
            who,
            when,
            tx_hash,
            released,
            penalty,
        ).issued_withdrawal_certs.contains_key(who),
{
}

// ---------------------------------------------------------------------------------------------
// Prices

/// The latest of the submitted prices for a trade pair is stored with its block, and the prices of
/// other pairs and nodes stay.
pub proof fn lemma_prices_read_back(
    stored: Map<(PairModel, AccountId), (u64, BlockNumber)>,
    who: AccountId,
    when: BlockNumber,
    prices: Seq<(PairModel, u64)>,
    pair: PairModel,
    node: AccountId,
)
    ensures
        ({
            let after = with_prices(stored, who, when, prices);
            &&& forall|i: int|
                0 <= i < prices.len() && (#[trigger] prices[i]).0 == pair && (forall|j: int|
                    i < j < prices.len() ==> (#[trigger] prices[j]).0 != pair) ==> after.contains_key(
                    (pair, who),
                ) && after[(pair, who)] == (prices[i].1, when)
            &&& (node != who || forall|i: int|
                0 <= i < prices.len() ==> (#[trigger] prices[i]).0 != pair) ==> (
            after.contains_key((pair, node)) == stored.contains_key((pair, node)) && after[(
                pair,
                node,
            )] == stored[(pair, node)])
        }),
    decreases prices.len(),
{
    if prices.len() > 0 {
        let rest = prices.drop_last();
        let after = with_prices(stored, who, when, prices);
        lemma_prices_read_back(stored, who, when, rest, pair, node);
        assert forall|i: int|
            0 <= i < prices.len() && (#[trigger] prices[i]).0 == pair && (forall|j: int|
                i < j < prices.len() ==> (#[trigger] prices[j]).0 != pair) implies after.contains_key(
            (pair, who),
        ) && after[(pair, who)] == (prices[i].1, when) by {
            if i < rest.len() {
                assert(prices[prices.len() - 1].0 != pair);
                assert(rest[i] == prices[i]);
                assert forall|j: int| i < j < rest.len() implies (#[trigger] rest[j]).0 != pair by {
                    assert(rest[j] == prices[j]);
                }
            }
        }
        if node != who || forall|i: int|
            0 <= i < prices.len() ==> (#[trigger] prices[i]).0 != pair {
            if node == who {
                assert(prices[prices.len() - 1].0 != pair);
                assert forall|i: int| 0 <= i < rest.len() implies (#[trigger] rest[i]).0 != pair by {
                    assert(rest[i] == prices[i]);
                }
            }
        }
    }
}

/// No stored price is from a later block than `n`.
pub open spec fn prices_timely(s: PalletModel, n: BlockNumber) -> bool {
    forall|key: (PairModel, AccountId)| #[trigger]
        s.nodes_prices.contains_key(key) ==> s.nodes_prices[key].1 <= n
}

proof fn lemma_with_prices_timely(
    stored: Map<(PairModel, AccountId), (u64, BlockNumber)>,
    who: AccountId,
    when: BlockNumber,
    prices: Seq<(PairModel, u64)>,
    n: BlockNumber,
)
    requires
        n >= when,
        forall|key: (PairModel, AccountId)| #[trigger]
            stored.contains_key(key) ==> stored[key].1 <= n,
    ensures
        forall|key: (PairModel, AccountId)| #[trigger]
            with_prices(stored, who, when, prices).contains_key(key) ==> with_prices(
                stored,
                who,
                when,
                prices,
            )[key].1 <= n,
    decreases prices.len(),
{
    if prices.len() > 0 {
        lemma_with_prices_timely(stored, who, when, prices.drop_last(), n);
        let before = with_prices(stored, who, when, prices.drop_last());
        let after = with_prices(stored, who, when, prices);
        assert forall|key: (PairModel, AccountId)| #[trigger]
            after.contains_key(key) implies after[key].1 <= n by {
            if key != (prices.last().0, who) {
                assert(before.contains_key(key));
            }
        }
    }
}

/// A call in block `n` stores no price from a later block.
pub proof fn lemma_prices_stay_timely(s: PalletModel, call: CallModel, n: BlockNumber)
    requires
        prices_timely(s, n),
        call matches CallModel::StorePrices { when, .. } ==> n >= when,
    ensures
        prices_timely(applied(s, call), n),
{
    match call {
        CallModel::StorePrices { origin, when, prices } => {
            if prices_refusal(s, origin, prices.len()) is None {
                lemma_with_prices_timely(s.nodes_prices, origin->Signed_0, when, prices, n);
            }
        },
        _ => {},
    }
}

/// Where no stored price is from a later block, the end of the block finds none.
pub proof fn lemma_timely_prices_listed(s: PalletModel, n: BlockNumber, pair: PairModel)
    requires
        prices_timely(s, n),
        group(s.nodes_prices, pair).dom().finite(),
    ensures
        none_later(stored_prices(s, pair), n),
{
    let m = group(s.nodes_prices, pair);
    lemma_listed::<AccountId, (u64, BlockNumber)>(m);
    let listed = stored_prices(s, pair);
    assert forall|i: int| 0 <= i < listed.len() implies (#[trigger] listed[i]).1.1 <= n by {
        lemma_map_entry::<AccountId, (u64, BlockNumber)>(listed, i);
        assert(s.nodes_prices.contains_key((pair, listed[i].0)));
    }
}

} // verus!
