//! What the slashing of nodes promises.
use crate::pallet::laws::{applied, consistent, lemma_voters_counted_once, slash_voters, CallModel};
use crate::pallet::slashing::{
    approve_count, deny_count, slash_request_refusal, slash_threshold, tallied, tally_refusal,
    vote_cast, vote_refusal, vote_slash_refusal,
};
use crate::pallet::state::{Error, EventModel, PalletModel};
use crate::pallet::types::{NodeModel, OracleNodeStakingState, SlashProposal, SlashVote};
use crate::primitives::{AccountId, BlockNumber, DispatchError, Origin};
use crate::sorted_map::group;
use vstd::prelude::*;

verus! {

/// Only the entry of `node` may differ.
pub open spec fn others_stay<V>(before: Map<AccountId, V>, after: Map<AccountId, V>, node: AccountId) -> bool {
    forall|other: AccountId|
        other != node ==> (#[trigger] after.contains_key(other) == before.contains_key(other)
            && (before.contains_key(other) ==> after[other] == before[other]))
}

/// Only the entries under `node` may differ.
pub open spec fn other_groups_stay<V>(
    before: Map<(AccountId, AccountId), V>,
    after: Map<(AccountId, AccountId), V>,
    node: AccountId,
) -> bool {
    forall|other: AccountId, who: AccountId|
        other != node ==> (#[trigger] after.contains_key((other, who)) == before.contains_key(
            (other, who),
        ) && (before.contains_key((other, who)) ==> after[(other, who)] == before[(other, who)]))
}

/// No entry is left under `node`.
pub open spec fn group_empty<V>(m: Map<(AccountId, AccountId), V>, node: AccountId) -> bool {
    forall|who: AccountId| !#[trigger] m.contains_key((node, who))
}

/// Everything but the nodes, the proposals, the votes and the events is as it was.
pub open spec fn only_slashing_changes(s: PalletModel, t: PalletModel) -> bool {
    t == (PalletModel {
        authorized_oracle_nodes: t.authorized_oracle_nodes,
        slash_proposals: t.slash_proposals,
        slash_votes: t.slash_votes,
        events: t.events,
        ..s
    })
}

/// A record in another state, with all else as it was.
pub open spec fn same_but_state(a: NodeModel, b: NodeModel) -> bool {
    &&& a.stake_amount == b.stake_amount
    &&& a.stake_activated_at == b.stake_activated_at
    &&& a.cardano_pkh_admin == b.cardano_pkh_admin
    &&& a.cardano_pkh_aggregation == b.cardano_pkh_aggregation
}

/// The storage holds no more nodes and votes than can be counted.
pub open spec fn votes_countable(s: PalletModel, node: AccountId) -> bool {
    &&& s.authorized_oracle_nodes.dom().finite()
    &&& s.authorized_oracle_nodes.dom().len() < u32::MAX
    &&& group(s.slash_votes, node).dom().finite()
    &&& group(s.slash_votes, node).dom().len() < u32::MAX
}

/// A vote is accepted exactly if it is one authorized node's on another authorized node whose
/// slashing is being voted on; why it is refused otherwise.
pub proof fn lemma_vote_accepted(
    s: PalletModel,
    origin: Origin,
    when: BlockNumber,
    node: AccountId,
    vote: SlashVote,
)
    requires
        consistent(s),
    ensures
        ({
            let refusal = vote_slash_refusal(s, origin, when, node, vote);
            let nodes = s.authorized_oracle_nodes;
            match origin {
                Origin::Signed(voter) => {
                    &&& refusal is None <==> nodes.contains_key(voter) && nodes.contains_key(node)
                        && voter != node && nodes[node].state == OracleNodeStakingState::SlashVoting
                    &&& !nodes.contains_key(voter) ==> refusal == Some(
                        DispatchError::Module(Error::UnauthorizedNode),
                    )
                    &&& nodes.contains_key(voter) && voter == node ==> refusal == Some(
                        DispatchError::Module(Error::CannotVoteForSelf),
                    )
                    &&& nodes.contains_key(voter) && voter != node && !nodes.contains_key(node)
                        ==> refusal == Some(DispatchError::Module(Error::UnauthorizedNode))
                    &&& nodes.contains_key(voter) && voter != node && nodes.contains_key(node)
                        && nodes[node].state != OracleNodeStakingState::SlashVoting ==> refusal
                        == Some(DispatchError::Module(Error::NoActiveSlash))
                },
                _ => refusal == Some(DispatchError::<Error>::BadOrigin),
            }
        }),
{
    if vote_refusal(s, origin, node) is None {
        assert(s.authorized_oracle_nodes.contains_key(node));
    }
}

/// An accepted vote replaces an earlier one of the voter. If then at least half of the authorized
/// nodes approve, the node is slashed; else, if at least half deny, it retires. Either ends the vote:
/// the proposal and all votes on the node are gone. Otherwise the vote goes on.
pub proof fn lemma_vote_decides(
    s: PalletModel,
    voter: AccountId,
    when: BlockNumber,
    node: AccountId,
    vote: SlashVote,
)
    requires
        consistent(s),
        votes_countable(s, node),
        s.authorized_oracle_nodes.contains_key(voter),
        s.authorized_oracle_nodes.contains_key(node),
        voter != node,
        s.authorized_oracle_nodes[node].state == OracleNodeStakingState::SlashVoting,
    ensures
        ({
            let t = applied(
                s,
                CallModel::VoteSlash { origin: Origin::Signed(voter), when, node, vote },
            );
            let votes = s.slash_votes.insert((node, voter), vote);
            let approve = slash_voters(votes, node, SlashVote::Approve).len();
            let deny = slash_voters(votes, node, SlashVote::Deny).len();
            let total = s.authorized_oracle_nodes.dom().len();
            let cast = EventModel::SlashVoteCast { node, voter, vote, when };
            let state = t.authorized_oracle_nodes[node].state;
            &&& only_slashing_changes(s, t)
            &&& t.authorized_oracle_nodes.contains_key(node)
            &&& same_but_state(s.authorized_oracle_nodes[node], t.authorized_oracle_nodes[node])
            &&& others_stay(s.authorized_oracle_nodes, t.authorized_oracle_nodes, node)
            &&& others_stay(s.slash_proposals, t.slash_proposals, node)
            &&& other_groups_stay(s.slash_votes, t.slash_votes, node)
            &&& 2 * approve >= total ==> {
                &&& state == OracleNodeStakingState::SlashApproved
                &&& !t.slash_proposals.contains_key(node)
                &&& group_empty(t.slash_votes, node)
                &&& t.events == s.events + seq![
                    cast,
                    EventModel::SlashApproved {
                        node,
                        slash_amount: s.slash_proposals[node].slash_amount,
                        approve_count: approve as u32,
                        deny_count: deny as u32,
                        when,
                    },
                ]
            }
            &&& 2 * approve < total && 2 * deny >= total ==> {
                &&& state == OracleNodeStakingState::RetireStake
                &&& !t.slash_proposals.contains_key(node)
                &&& group_empty(t.slash_votes, node)
                &&& t.events == s.events + seq![
                    cast,
                    EventModel::SlashRejected {
                        node,
                        approve_count: approve as u32,
                        deny_count: deny as u32,
                        when,
                    },
                ]
            }
            &&& 2 * approve < total && 2 * deny < total ==> {
                &&& state == OracleNodeStakingState::SlashVoting
                &&& t.slash_proposals.contains_key(node)
                &&& t.slash_proposals[node] == s.slash_proposals[node]
                &&& t.slash_votes == votes
                &&& t.events == s.events.push(cast)
            }
        }),
{
    assert(s.slash_proposals.contains_key(node));
    let votes = s.slash_votes.insert((node, voter), vote);
    let before = group(s.slash_votes, node);
    let g = group(votes, node);
    assert(g =~= before.insert(voter, vote));
    lemma_voters_counted_once(votes, node, SlashVote::Approve);
    lemma_voters_counted_once(votes, node, SlashVote::Deny);
    let yes = slash_voters(votes, node, SlashVote::Approve);
    let no = slash_voters(votes, node, SlashVote::Deny);
    vstd::set_lib::lemma_len_subset(yes, g.dom());
    vstd::set_lib::lemma_len_subset(no, g.dom());
    assert(g.dom() =~= before.dom().insert(voter));
    assert(g.dom().len() <= u32::MAX);
    let t = applied(s, CallModel::VoteSlash { origin: Origin::Signed(voter), when, node, vote });
    let mid = vote_cast(s, voter, when, node, vote);
    let total = s.authorized_oracle_nodes.dom().len();
    assert(approve_count(mid, node) == yes.len());
    assert(deny_count(mid, node) == no.len());
    assert(slash_threshold(mid) == (total + 1) / 2);
    assert(vote_slash_refusal(s, Origin::Signed(voter), when, node, vote) is None);
    let cast = EventModel::SlashVoteCast { node, voter, vote, when };
    assert(t.events.len() == s.events.len() + 2 ==> t.events =~= s.events + seq![
        cast,
        t.events.last(),
    ]);
}

/// A count of the votes on a node acts once at least half of the authorized nodes approve, or else
/// once at least half deny. An approved slash needs its proposal and either needs the node, else
/// nothing changes. A rejected one retires the node only while it is being voted on.
pub proof fn lemma_tally_acts(s: PalletModel, when: BlockNumber, node: AccountId)
    requires
        votes_countable(s, node),
    ensures
        ({
            let t = tallied(s, when, node);
            let refusal = tally_refusal(s, node);
            let approve = slash_voters(s.slash_votes, node, SlashVote::Approve).len();
            let deny = slash_voters(s.slash_votes, node, SlashVote::Deny).len();
            let total = s.authorized_oracle_nodes.dom().len();
            let approved = 2 * approve >= total;
            let denied = !approved && 2 * deny >= total;
            let proposed = s.slash_proposals.contains_key(node);
            let known = s.authorized_oracle_nodes.contains_key(node);
            let before = s.authorized_oracle_nodes[node];
            let after = t.authorized_oracle_nodes[node];
            &&& refusal is None <==> (approved ==> proposed && known) && (denied ==> known)
            &&& approved && !proposed ==> refusal == Some(
                DispatchError::Module(Error::NoActiveSlash),
            )
            &&& approved && proposed && !known || denied && !known ==> refusal == Some(
                DispatchError::Module(Error::UnauthorizedNode),
            )
            &&& !approved && !denied ==> t == s
            &&& (approved || denied) && refusal is None ==> {
                &&& only_slashing_changes(s, t)
                &&& t.authorized_oracle_nodes.contains_key(node)
                &&& same_but_state(before, after)
                &&& others_stay(s.authorized_oracle_nodes, t.authorized_oracle_nodes, node)
                &&& others_stay(s.slash_proposals, t.slash_proposals, node)
                &&& other_groups_stay(s.slash_votes, t.slash_votes, node)
                &&& !t.slash_proposals.contains_key(node)
                &&& group_empty(t.slash_votes, node)
            }
            &&& approved && refusal is None ==> {
                &&& after.state == OracleNodeStakingState::SlashApproved
                &&& t.events == s.events.push(
                    EventModel::SlashApproved {
                        node,
                        slash_amount: s.slash_proposals[node].slash_amount,
                        approve_count: approve as u32,
                        deny_count: deny as u32,
                        when,
                    },
                )
            }
            &&& denied && refusal is None ==> {
                &&& before.state == OracleNodeStakingState::SlashVoting ==> after.state
                    == OracleNodeStakingState::RetireStake
                &&& before.state != OracleNodeStakingState::SlashVoting ==> after == before
                &&& t.events == s.events.push(
                    EventModel::SlashRejected {
                        node,
                        approve_count: approve as u32,
                        deny_count: deny as u32,
                        when,
                    },
                )
            }
        }),
{
    let g = group(s.slash_votes, node);
    lemma_voters_counted_once(s.slash_votes, node, SlashVote::Approve);
    lemma_voters_counted_once(s.slash_votes, node, SlashVote::Deny);
    let yes = slash_voters(s.slash_votes, node, SlashVote::Approve);
    let no = slash_voters(s.slash_votes, node, SlashVote::Deny);
    assert forall|voter: AccountId| yes.contains(voter) || no.contains(voter) implies #[trigger]
        g.dom().contains(voter) by {}
    vstd::set_lib::lemma_len_subset(yes, g.dom());
    vstd::set_lib::lemma_len_subset(no, g.dom());
    assert(approve_count(s, node) == yes.len());
    assert(deny_count(s, node) == no.len());
    assert(slash_threshold(s) == (s.authorized_oracle_nodes.dom().len() + 1) / 2);
}

/// A node whose slashing is voted on stops being voted on only through a vote on it after which at
/// least half of the authorized nodes approve or at least half deny, or through its removal, its
/// withdrawal or its registration anew.
pub proof fn lemma_vote_ends_by_majority(s: PalletModel, call: CallModel, node: AccountId)
    requires
        consistent(s),
        votes_countable(s, node),
        s.authorized_oracle_nodes.contains_key(node),
        s.authorized_oracle_nodes[node].state == OracleNodeStakingState::SlashVoting,
        applied(s, call).authorized_oracle_nodes.contains_key(node),
        applied(s, call).authorized_oracle_nodes[node].state != OracleNodeStakingState::SlashVoting,
    ensures
        ({
            let state = applied(s, call).authorized_oracle_nodes[node].state;
            let total = s.authorized_oracle_nodes.dom().len();
            match call {
                CallModel::VoteSlash { origin: Origin::Signed(voter), node: target, vote, .. } => {
                    let votes = s.slash_votes.insert((node, voter), vote);
                    &&& target == node
                    &&& voter != node
                    &&& s.authorized_oracle_nodes.contains_key(voter)
                    &&& state == OracleNodeStakingState::SlashApproved && 2 * slash_voters(
                        votes,
                        node,
                        SlashVote::Approve,
                    ).len() >= total || state == OracleNodeStakingState::RetireStake && 2
                        * slash_voters(votes, node, SlashVote::Deny).len() >= total
                },
                CallModel::Register { node: target, .. } => target == node && state
                    == OracleNodeStakingState::Inactive,
                CallModel::ConfirmWithdrawal { origin, .. } => origin == Origin::Signed(node)
                    && state == OracleNodeStakingState::Inactive,
                _ => false,
            }
        }),
{
    match call {
        CallModel::VoteSlash { origin: Origin::Signed(voter), when, node: target, vote } => {
            if vote_slash_refusal(s, Origin::Signed(voter), when, target, vote) is None {
                assert(target == node);
                lemma_vote_decides(s, voter, when, node, vote);
            }
        },
        _ => {},
    }
}

/// A slash may be proposed by anyone, for an authorized node that is active or retiring and for less
/// than its stake; why it is refused otherwise.
pub proof fn lemma_slash_proposable(s: PalletModel, origin: Origin, node: AccountId, amount: u64)
    ensures
        ({
            let refusal = slash_request_refusal(s, origin, node, amount);
            let nodes = s.authorized_oracle_nodes;
            let info = nodes[node];
            let slashable = info.state == OracleNodeStakingState::ActiveStake || info.state
                == OracleNodeStakingState::RetireStake;
            match origin {
                Origin::Signed(_) => {
                    &&& refusal is None <==> nodes.contains_key(node) && slashable && amount
                        < info.stake_amount
                    &&& !nodes.contains_key(node) ==> refusal == Some(
                        DispatchError::Module(Error::UnauthorizedNode),
                    )
                    &&& nodes.contains_key(node) && !slashable ==> refusal == Some(
                        DispatchError::Module(Error::InvalidNodeState),
                    )
                    &&& nodes.contains_key(node) && slashable && amount >= info.stake_amount
                        ==> refusal == Some(DispatchError::Module(Error::SlashAmountInvalid))
                },
                _ => refusal == Some(DispatchError::<Error>::BadOrigin),
            }
        }),
{
}

/// An accepted slash request opens the vote on the node, under the proposal that was made.
pub proof fn lemma_slash_request_opens_vote(
    s: PalletModel,
    who: AccountId,
    when: BlockNumber,
    node: AccountId,
    amount: u64,
)
    requires
        s.authorized_oracle_nodes.contains_key(node),
        s.authorized_oracle_nodes[node].state == OracleNodeStakingState::ActiveStake
            || s.authorized_oracle_nodes[node].state == OracleNodeStakingState::RetireStake,
        amount < s.authorized_oracle_nodes[node].stake_amount,
    ensures
        ({
            let t = applied(
                s,
                CallModel::RequestSlash { origin: Origin::Signed(who), when, node, amount },
            );
            &&& only_slashing_changes(s, t)
            &&& t.slash_votes == s.slash_votes
            &&& t.authorized_oracle_nodes.contains_key(node)
            &&& t.authorized_oracle_nodes[node].state == OracleNodeStakingState::SlashVoting
            &&& same_but_state(s.authorized_oracle_nodes[node], t.authorized_oracle_nodes[node])
            &&& others_stay(s.authorized_oracle_nodes, t.authorized_oracle_nodes, node)
            &&& others_stay(s.slash_proposals, t.slash_proposals, node)
            &&& t.slash_proposals.contains_key(node)
            &&& t.slash_proposals[node] == (SlashProposal {
                slash_amount: amount,
                initiated_by: who,
                when,
            })
            &&& t.events == s.events.push(
                EventModel::SlashRequested { node, slash_amount: amount, initiated_by: who, when },
            )
        }),
{
}

} // verus!
