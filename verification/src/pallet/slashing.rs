//! Slashing of nodes by vote, and withdrawal of stakes.
use crate::bounded::truncated;
use crate::model::{same_array, Model};
use crate::pallet::staking::{
    admin_threshold, collect_sigs, refused, signatures_for, with_state,
};
use crate::pallet::laws::{applied, CallModel};
use crate::pallet::state::{Error, Event, EventModel, Pallet, PalletModel};
use crate::pallet::types::{
    IssuedWithdrawalCert, NodeModel, OracleNodeStakingState, SlashProposal, SlashVote,
    WithdrawalCertModel,
};
use crate::primitives::{
    count_items, outcome, wrap32, AccountId, AdminSig, BlockNumber, DispatchError, Origin,
};
use crate::sorted_map::{group, listing, without_group};
use vstd::prelude::*;

verus! {

// ---------------------------------------------------------------------------------------------
// Slash requests and votes

/// Why the slashing of a node may not be proposed.
pub open spec fn slash_request_refusal(
    s: PalletModel,
    origin: Origin,
    node: AccountId,
    slash_amount: u64,
) -> Option<DispatchError<Error>> {
    match origin {
        Origin::Signed(_) => if !s.authorized_oracle_nodes.contains_key(node) {
            refused(Error::UnauthorizedNode)
        } else if s.authorized_oracle_nodes[node].state != OracleNodeStakingState::ActiveStake
            && s.authorized_oracle_nodes[node].state != OracleNodeStakingState::RetireStake {
            refused(Error::InvalidNodeState)
        } else if slash_amount >= s.authorized_oracle_nodes[node].stake_amount {
            refused(Error::SlashAmountInvalid)
        } else {
            None
        },
        _ => Some(DispatchError::BadOrigin),
    }
}

/// The storage after the slashing of a node was proposed.
pub open spec fn slash_requested(
    s: PalletModel,
    who: AccountId,
    when: BlockNumber,
    node: AccountId,
    slash_amount: u64,
) -> PalletModel {
    PalletModel {
        slash_proposals: s.slash_proposals.insert(
            node,
            SlashProposal { slash_amount, initiated_by: who, when },
        ),
        authorized_oracle_nodes: s.authorized_oracle_nodes.insert(
            node,
            with_state(s.authorized_oracle_nodes[node], OracleNodeStakingState::SlashVoting),
        ),
        events: s.events.push(
            EventModel::SlashRequested { node, slash_amount, initiated_by: who, when },
        ),
        ..s
    }
}

/// The number of entries with a vote.
pub open spec fn entries_with(listed: Seq<(AccountId, SlashVote)>, vote: SlashVote) -> nat {
    listed.filter(|entry: (AccountId, SlashVote)| entry.1 == vote).len()
}

/// The number of votes of one kind on the slashing of a node.
pub open spec fn votes_for(
    votes: Map<(AccountId, AccountId), SlashVote>,
    node: AccountId,
    vote: SlashVote,
) -> nat {
    entries_with(listing::<AccountId, SlashVote>(group(votes, node)), vote)
}

pub open spec fn approve_count(s: PalletModel, node: AccountId) -> u32 {
    wrap32(votes_for(s.slash_votes, node, SlashVote::Approve))
}

pub open spec fn deny_count(s: PalletModel, node: AccountId) -> u32 {
    wrap32(votes_for(s.slash_votes, node, SlashVote::Deny))
}

/// The number of authorized nodes.
pub open spec fn total_nodes(s: PalletModel) -> u32 {
    wrap32(s.authorized_oracle_nodes.dom().len())
}

/// Half of the authorized nodes, rounded up.
pub open spec fn slash_threshold(s: PalletModel) -> int {
    (total_nodes(s) + 1) / 2
}

/// Why a vote on the slashing of a node is refused before votes are counted.
pub open spec fn vote_refusal(s: PalletModel, origin: Origin, node: AccountId) -> Option<
    DispatchError<Error>,
> {
    match origin {
        Origin::Signed(who) => if !s.authorized_oracle_nodes.contains_key(who) {
            refused(Error::UnauthorizedNode)
        } else if who == node {
            refused(Error::CannotVoteForSelf)
        } else if !s.authorized_oracle_nodes.contains_key(node) {
            refused(Error::UnauthorizedNode)
        } else if s.authorized_oracle_nodes[node].state != OracleNodeStakingState::SlashVoting {
            refused(Error::NoActiveSlash)
        } else {
            None
        },
        _ => Some(DispatchError::BadOrigin),
    }
}

/// Why the votes on a node cannot be acted upon.
pub open spec fn tally_refusal(s: PalletModel, node: AccountId) -> Option<DispatchError<Error>> {
    if approve_count(s, node) >= slash_threshold(s) {
        if !s.slash_proposals.contains_key(node) {
            refused(Error::NoActiveSlash)
        } else if !s.authorized_oracle_nodes.contains_key(node) {
            refused(Error::UnauthorizedNode)
        } else {
            None
        }
    } else if deny_count(s, node) >= slash_threshold(s)
        && !s.authorized_oracle_nodes.contains_key(node) {
        refused(Error::UnauthorizedNode)
    } else {
        None
    }
}

/// The vote is over: the node is in its new state, the proposal and the votes are gone.
pub open spec fn slash_finalized(
    s: PalletModel,
    node: AccountId,
    info: NodeModel,
    event: EventModel,
) -> PalletModel {
    PalletModel {
        authorized_oracle_nodes: s.authorized_oracle_nodes.insert(node, info),
        slash_proposals: s.slash_proposals.remove(node),
        slash_votes: without_group(s.slash_votes, node),
        events: s.events.push(event),
        ..s
    }
}

pub open spec fn slash_approved(
    s: PalletModel,
    when: BlockNumber,
    node: AccountId,
    approve_count: u32,
    deny_count: u32,
) -> PalletModel {
    slash_finalized(
        s,
        node,
        with_state(s.authorized_oracle_nodes[node], OracleNodeStakingState::SlashApproved),
        EventModel::SlashApproved {
            node,
            slash_amount: s.slash_proposals[node].slash_amount,
            approve_count,
            deny_count,
            when,
        },
    )
}

/// A rejected slash leaves the node retiring, if it was still being voted on.
pub open spec fn slash_rejected(
    s: PalletModel,
    when: BlockNumber,
    node: AccountId,
    approve_count: u32,
    deny_count: u32,
) -> PalletModel {
    let info = s.authorized_oracle_nodes[node];
    slash_finalized(
        s,
        node,
        if info.state == OracleNodeStakingState::SlashVoting {
            with_state(info, OracleNodeStakingState::RetireStake)
        } else {
            info
        },
        EventModel::SlashRejected { node, approve_count, deny_count, when },
    )
}

/// The storage after the votes on a node were counted.
pub open spec fn tallied(s: PalletModel, when: BlockNumber, node: AccountId) -> PalletModel {
    let approve = approve_count(s, node);
    let deny = deny_count(s, node);
    if approve >= slash_threshold(s) {
        slash_approved(s, when, node, approve, deny)
    } else if deny >= slash_threshold(s) {
        slash_rejected(s, when, node, approve, deny)
    } else {
        s
    }
}

/// The storage with a vote recorded, before it is counted.
pub open spec fn vote_cast(
    s: PalletModel,
    who: AccountId,
    when: BlockNumber,
    node: AccountId,
    vote: SlashVote,
) -> PalletModel {
    PalletModel {
        slash_votes: s.slash_votes.insert((node, who), vote),
        events: s.events.push(EventModel::SlashVoteCast { node, voter: who, vote, when }),
        ..s
    }
}

/// Why a vote is refused: it may not be cast, or it decides a slash that was not proposed.
pub open spec fn vote_slash_refusal(
    s: PalletModel,
    origin: Origin,
    when: BlockNumber,
    node: AccountId,
    vote: SlashVote,
) -> Option<DispatchError<Error>> {
    if vote_refusal(s, origin, node) is Some {
        vote_refusal(s, origin, node)
    } else {
        tally_refusal(vote_cast(s, origin->Signed_0, when, node, vote), node)
    }
}

pub proof fn lemma_entries_with(listed: Seq<(AccountId, SlashVote)>, vote: SlashVote)
    ensures
        entries_with(listed, vote) == if listed.len() == 0 {
            0
        } else if listed.last().1 == vote {
            entries_with(listed.drop_last(), vote) + 1
        } else {
            entries_with(listed.drop_last(), vote)
        },
{
    reveal(Seq::filter);
}

fn count_votes(listed: &Vec<(AccountId, SlashVote)>, vote: SlashVote) -> (n: u32)
    ensures
        n == wrap32(entries_with(listed.model(), vote)),
{
    let ghost all = listed.model();
    let mut count: usize = 0;
    proof {
        lemma_entries_with(all.take(0), vote);
    }
    for i in 0..listed.len()
        invariant
            all == listed.model(),
            count == entries_with(all.take(i as int), vote),
            count <= i,
    {
        proof {
            lemma_entries_with(all.take(i + 1), vote);
            assert(all.take(i + 1).drop_last() =~= all.take(i as int));
            assert(all.take(i + 1).last() == listed@[i as int].model());
        }
        if listed[i].1 == vote {
            count += 1;
        }
    }
    assert(all.take(all.len() as int) =~= all);
    count_items(count)
}

impl Pallet {
    /// Proposes to slash the stake of a node.
    pub fn request_slash(
        &mut self,
        origin: Origin,
        when: BlockNumber,
        node_account: AccountId,
        slash_amount: u64,
    ) -> (r: Result<(), DispatchError<Error>>)
        ensures
            final(self)@ == applied(
                old(self)@,
                CallModel::RequestSlash { origin, when, node: node_account, amount: slash_amount },
            ),
            ({
                let refusal = slash_request_refusal(
                    old(self)@,
                    origin,
                    node_account,
                    slash_amount,
                );
                &&& r == outcome(refusal)
                &&& final(self)@ == if refusal is Some {
                    old(self)@
                } else {
                    slash_requested(
                        old(self)@,
                        origin->Signed_0,
                        when,
                        node_account,
                        slash_amount,
                    )
                }
            }),
    {
        let who = match origin {
            Origin::Signed(who) => who,
            _ => {
                return Err(DispatchError::BadOrigin);
            },
        };
        let mut info = match self.authorized_oracle_nodes.get(&node_account) {
            Some(info) => info,
            None => {
                return Err(DispatchError::Module(Error::UnauthorizedNode));
            },
        };
        if info.state != OracleNodeStakingState::ActiveStake && info.state
            != OracleNodeStakingState::RetireStake {
            return Err(DispatchError::Module(Error::InvalidNodeState));
        }
        if slash_amount >= info.stake_amount {
            return Err(DispatchError::Module(Error::SlashAmountInvalid));
        }
        self.slash_proposals.insert(
            node_account,
            SlashProposal { slash_amount, initiated_by: who, when },
        );
        info.state = OracleNodeStakingState::SlashVoting;
        self.authorized_oracle_nodes.insert(node_account, info);
        self.deposit_event(
            Event::SlashRequested { node: node_account, slash_amount, initiated_by: who, when },
        );
        assert(self@ =~= slash_requested(old(self)@, who, when, node_account, slash_amount));
        Ok(())
    }

    /// Counts the votes on a node: approving ones, denying ones, and how many decide.
    fn tally(&self, node_account: &AccountId) -> (r: (u32, u32, u32))
        requires
            total_nodes(self@) < u32::MAX,
        ensures
            r.0 == approve_count(self@, *node_account),
            r.1 == deny_count(self@, *node_account),
            r.2 == slash_threshold(self@),
    {
        let total: u32 = count_items(self.authorized_oracle_nodes.len());
        let votes = self.slash_votes.iter_prefix(node_account);
        let approve: u32 = count_votes(&votes, SlashVote::Approve);
        let deny: u32 = count_votes(&votes, SlashVote::Deny);
        (approve, deny, (total + 1) / 2)
    }

    /// Acts on the votes on a node, if they decide.
    fn tally_slash_vote(&mut self, when: BlockNumber, node_account: &AccountId) -> (r: Result<
        (),
        DispatchError<Error>,
    >)
        requires
            total_nodes(old(self)@) < u32::MAX,
        ensures
            r == outcome(tally_refusal(old(self)@, *node_account)),
            final(self)@ == if tally_refusal(old(self)@, *node_account) is Some {
                old(self)@
            } else {
                tallied(old(self)@, when, *node_account)
            },
    {
        let (approve, deny, threshold) = self.tally(node_account);
        if approve >= threshold {
            self.finalize_slash_approved(when, node_account, approve, deny)
        } else if deny >= threshold {
            self.finalize_slash_rejected(when, node_account, approve, deny)
        } else {
            Ok(())
        }
    }

    fn finalize_slash_approved(
        &mut self,
        when: BlockNumber,
        node_account: &AccountId,
        approve_count: u32,
        deny_count: u32,
    ) -> (r: Result<(), DispatchError<Error>>)
        ensures
            ({
                let refusal = if !old(self)@.slash_proposals.contains_key(*node_account) {
                    refused(Error::NoActiveSlash)
                } else if !old(self)@.authorized_oracle_nodes.contains_key(*node_account) {
                    refused(Error::UnauthorizedNode)
                } else {
                    None
                };
                &&& r == outcome(refusal)
                &&& final(self)@ == if refusal is Some {
                    old(self)@
                } else {
                    slash_approved(old(self)@, when, *node_account, approve_count, deny_count)
                }
            }),
    {
        let proposal = match self.slash_proposals.get(node_account) {
            Some(proposal) => proposal,
            None => {
                return Err(DispatchError::Module(Error::NoActiveSlash));
            },
        };
        let mut info = match self.authorized_oracle_nodes.get(node_account) {
            Some(info) => info,
            None => {
                return Err(DispatchError::Module(Error::UnauthorizedNode));
            },
        };
        info.state = OracleNodeStakingState::SlashApproved;
        self.authorized_oracle_nodes.insert(*node_account, info);
        self.slash_proposals.remove(node_account);
        self.slash_votes.clear_prefix(node_account);
        self.deposit_event(
            Event::SlashApproved {
                node: *node_account,
                slash_amount: proposal.slash_amount,
                approve_count,
                deny_count,
                when,
            },
        );
        assert(self@ =~= slash_approved(
            old(self)@,
            when,
            *node_account,
            approve_count,
            deny_count,
        ));
        Ok(())
    }

    fn finalize_slash_rejected(
        &mut self,
        when: BlockNumber,
        node_account: &AccountId,
        approve_count: u32,
        deny_count: u32,
    ) -> (r: Result<(), DispatchError<Error>>)
        ensures
            ({
                let refusal = if !old(self)@.authorized_oracle_nodes.contains_key(*node_account) {
                    refused(Error::UnauthorizedNode)
                } else {
                    None
                };
                &&& r == outcome(refusal)
                &&& final(self)@ == if refusal is Some {
                    old(self)@
                } else {
                    slash_rejected(old(self)@, when, *node_account, approve_count, deny_count)
                }
            }),
    {
        let mut info = match self.authorized_oracle_nodes.get(node_account) {
            Some(info) => info,
            None => {
                return Err(DispatchError::Module(Error::UnauthorizedNode));
            },
        };
        if info.state == OracleNodeStakingState::SlashVoting {
            info.state = OracleNodeStakingState::RetireStake;
        }
        self.authorized_oracle_nodes.insert(*node_account, info);
        self.slash_proposals.remove(node_account);
        self.slash_votes.clear_prefix(node_account);
        self.deposit_event(
            Event::SlashRejected { node: *node_account, approve_count, deny_count, when },
        );
        assert(self@ =~= slash_rejected(
            old(self)@,
            when,
            *node_account,
            approve_count,
            deny_count,
        ));
        Ok(())
    }

    /// Votes on the slashing of a node, and acts on the votes once they decide.
    pub fn vote_slash(
        &mut self,
        origin: Origin,
        when: BlockNumber,
        node_account: AccountId,
        vote: SlashVote,
    ) -> (r: Result<(), DispatchError<Error>>)
        requires
            vote_refusal(old(self)@, origin, node_account) is None ==> total_nodes(old(self)@)
                < u32::MAX,
        ensures
            final(self)@ == applied(
                old(self)@,
                CallModel::VoteSlash { origin, when, node: node_account, vote },
            ),
            ({
                let refusal = vote_slash_refusal(old(self)@, origin, when, node_account, vote);
                &&& r == outcome(refusal)
                &&& final(self)@ == if refusal is Some {
                    old(self)@
                } else {
                    tallied(
                        vote_cast(old(self)@, origin->Signed_0, when, node_account, vote),
                        when,
                        node_account,
                    )
                }
            }),
    {
        let who = match origin {
            Origin::Signed(who) => who,
            _ => {
                return Err(DispatchError::BadOrigin);
            },
        };
        if !self.authorized_oracle_nodes.contains_key(&who) {
            return Err(DispatchError::Module(Error::UnauthorizedNode));
        }
        if same_array(&who, &node_account) {
            return Err(DispatchError::Module(Error::CannotVoteForSelf));
        }
        let info = match self.authorized_oracle_nodes.get(&node_account) {
            Some(info) => info,
            None => {
                return Err(DispatchError::Module(Error::UnauthorizedNode));
            },
        };
        if info.state != OracleNodeStakingState::SlashVoting {
            return Err(DispatchError::Module(Error::NoActiveSlash));
        }
        let ghost cast = vote_cast(self@, who, when, node_account, vote);
        let key = (node_account, who);
        let previous = self.slash_votes.get(&key);
        self.slash_votes.insert(key, vote);
        let (approve, _deny, threshold) = self.tally(&node_account);
        assert(approve == approve_count(cast, node_account));
        assert(threshold == slash_threshold(cast));
        if approve >= threshold && !self.slash_proposals.contains_key(&node_account) {
            match previous {
                Some(earlier) => {
                    self.slash_votes.insert(key, earlier);
                },
                None => {
                    self.slash_votes.remove(&key);
                },
            }
            assert(self@ =~= old(self)@);
            return Err(DispatchError::Module(Error::NoActiveSlash));
        }
        self.deposit_event(
            Event::SlashVoteCast { node: node_account, voter: who, vote, when },
        );
        assert(self@ =~= cast);
        self.tally_slash_vote(when, &node_account)
    }
}

// ---------------------------------------------------------------------------------------------
// Withdrawal

/// Why an admin may not sign the withdrawal of a node.
pub open spec fn withdrawal_refusal(
    s: PalletModel,
    origin: Origin,
    node: AccountId,
    approved_amount: u64,
) -> Option<DispatchError<Error>> {
    match origin {
        Origin::Signed(who) => if who == node {
            refused(Error::CannotVoteForSelf)
        } else if !s.authorized_oracle_nodes.contains_key(node) {
            refused(Error::UnauthorizedNode)
        } else if approved_amount > s.authorized_oracle_nodes[node].stake_amount {
            refused(Error::ApprovedAmountInvalid)
        } else if s.withdrawal_approval_info.contains_key(node) && s.withdrawal_approval_info[node]
            != approved_amount {
            refused(Error::ProposalMismatch)
        } else if s.withdrawal_approval_sigs.contains_key((node, who)) {
            refused(Error::AlreadySigned)
        } else {
            None
        },
        _ => Some(DispatchError::BadOrigin),
    }
}

/// The storage after an admin signed the withdrawal of a node. Once enough admins have signed, the
/// certificate is issued and the pending approval cleared.
pub open spec fn withdrawal_signed(
    s: PalletModel,
    who: AccountId,
    when: BlockNumber,
    node: AccountId,
    approved_amount: u64,
    sig: AdminSig,
) -> PalletModel {
    let sigs = s.withdrawal_approval_sigs.insert((node, who), sig);
    let collected = signatures_for(sigs, node);
    if wrap32(collected.len()) >= admin_threshold(s) {
        let certificate = WithdrawalCertModel { approved_amount, sigs: truncated(collected, 32) };
        PalletModel {
            withdrawal_approval_info: s.withdrawal_approval_info.remove(node),
            withdrawal_approval_sigs: without_group(sigs, node),
            issued_withdrawal_certs: s.issued_withdrawal_certs.insert(node, certificate),
            events: s.events.push(
                EventModel::WithdrawalCertificateIssued { node, certificate, when },
            ),
            ..s
        }
    } else {
        PalletModel {
            withdrawal_approval_info: s.withdrawal_approval_info.insert(node, approved_amount),
            withdrawal_approval_sigs: sigs,
            events: s.events.push(EventModel::WithdrawalApprovalSigned { node, signer: who, when }),
            ..s
        }
    }
}

/// The released amount and the penalty must make up the stake of the calling node.
pub open spec fn withdrawal_confirmation_refusal(
    s: PalletModel,
    origin: Origin,
    released_amount: u64,
    penalty_amount: u64,
) -> Option<DispatchError<Error>> {
    match origin {
        Origin::Signed(who) => if !s.authorized_oracle_nodes.contains_key(who) {
            refused(Error::UnauthorizedNode)
        } else if released_amount + penalty_amount != s.authorized_oracle_nodes[who].stake_amount {
            refused(Error::AmountMismatch)
        } else {
            None
        },
        _ => Some(DispatchError::BadOrigin),
    }
}

/// The storage after a node confirmed its withdrawal on Cardano.
pub open spec fn withdrawal_confirmed(
    s: PalletModel,
    who: AccountId,
    when: BlockNumber,
    tx_hash: [u8; 32],
    released_amount: u64,
    penalty_amount: u64,
) -> PalletModel {
    PalletModel {
        authorized_oracle_nodes: s.authorized_oracle_nodes.insert(
            who,
            with_state(s.authorized_oracle_nodes[who], OracleNodeStakingState::Inactive),
        ),
        issued_withdrawal_certs: s.issued_withdrawal_certs.remove(who),
        events: s.events.push(
            EventModel::WithdrawalConfirmed {
                node: who,
                tx_hash,
                released_amount,
                penalty_amount,
                when,
            },
        ),
        ..s
    }
}

impl Pallet {
    /// An admin signs the withdrawal of a node.
    pub fn generate_withdrawal_certificate(
        &mut self,
        origin: Origin,
        when: BlockNumber,
        node_account: AccountId,
        approved_amount: u64,
        admin_pubkey: [u8; 32],
        admin_sig: [u8; 64],
    ) -> (r: Result<(), DispatchError<Error>>)
        ensures
            final(self)@ == applied(
                old(self)@,
                CallModel::SignWithdrawal {
                    origin,
                    when,
                    node: node_account,
                    amount: approved_amount,
                    sig: (admin_pubkey, admin_sig),
                },
            ),
            ({
                let refusal = withdrawal_refusal(
                    old(self)@,
                    origin,
                    node_account,
                    approved_amount,
                );
                &&& r == outcome(refusal)
                &&& final(self)@ == if refusal is Some {
                    old(self)@
                } else {
                    withdrawal_signed(
                        old(self)@,
                        origin->Signed_0,
                        when,
                        node_account,
                        approved_amount,
                        (admin_pubkey, admin_sig),
                    )
                }
            }),
    {
        let who = match origin {
            Origin::Signed(who) => who,
            _ => {
                return Err(DispatchError::BadOrigin);
            },
        };
        if same_array(&who, &node_account) {
            return Err(DispatchError::Module(Error::CannotVoteForSelf));
        }
        let info = match self.authorized_oracle_nodes.get(&node_account) {
            Some(info) => info,
            None => {
                return Err(DispatchError::Module(Error::UnauthorizedNode));
            },
        };
        if approved_amount > info.stake_amount {
            return Err(DispatchError::Module(Error::ApprovedAmountInvalid));
        }
        let pending = self.withdrawal_approval_info.get(&node_account);
        if let Some(existing_amount) = pending {
            if existing_amount != approved_amount {
                return Err(DispatchError::Module(Error::ProposalMismatch));
            }
        }
        if self.withdrawal_approval_sigs.contains_key(&(node_account, who)) {
            return Err(DispatchError::Module(Error::AlreadySigned));
        }
        let ghost start = self@;
        let ghost sig = (admin_pubkey, admin_sig);
        self.withdrawal_approval_sigs.insert((node_account, who), (admin_pubkey, admin_sig));
        let listed = self.withdrawal_approval_sigs.iter_prefix(&node_account);
        assert(signatures_for(self@.withdrawal_approval_sigs, node_account).len() == listed@.len());
        if count_items(listed.len()) >= self.admin_threshold() {
            let collected_sigs = collect_sigs(&listed);
            self.withdrawal_approval_info.remove(&node_account);
            self.withdrawal_approval_sigs.clear_prefix(&node_account);
            let certificate = IssuedWithdrawalCert { approved_amount, sigs: collected_sigs };
            self.issued_withdrawal_certs.insert(node_account, certificate.duplicate());
            self.deposit_event(
                Event::WithdrawalCertificateIssued { node: node_account, certificate, when },
            );
        } else {
            if pending.is_none() {
                self.withdrawal_approval_info.insert(node_account, approved_amount);
            }
            assert(self@.withdrawal_approval_info =~= start.withdrawal_approval_info.insert(
                node_account,
                approved_amount,
            ));
            self.deposit_event(
                Event::WithdrawalApprovalSigned { node: node_account, signer: who, when },
            );
        }
        assert(self@ =~= withdrawal_signed(start, who, when, node_account, approved_amount, sig));
        Ok(())
    }

    /// The node confirms that its stake was withdrawn on Cardano.
    pub fn confirm_cardano_withdrawal(
        &mut self,
        origin: Origin,
        when: BlockNumber,
        tx_hash: [u8; 32],
        released_amount: u64,
        penalty_amount: u64,
    ) -> (r: Result<(), DispatchError<Error>>)
        requires
            origin matches Origin::Signed(who) && old(self)@.authorized_oracle_nodes.contains_key(
                who,
            ) ==> released_amount + penalty_amount <= u64::MAX,
        ensures
            final(self)@ == applied(
                old(self)@,
                CallModel::ConfirmWithdrawal {
                    origin,
                    when,
                    tx_hash,
                    released: released_amount,
                    penalty: penalty_amount,
                },
            ),
            ({
                let refusal = withdrawal_confirmation_refusal(
                    old(self)@,
                    origin,
                    released_amount,
                    penalty_amount,
                );
                &&& r == outcome(refusal)
                &&& final(self)@ == if refusal is Some {
                    old(self)@
                } else {
                    withdrawal_confirmed(
                        old(self)@,
                        origin->Signed_0,
                        when,
                        tx_hash,
                        released_amount,
                        penalty_amount,
                    )
                }
            }),
    {
        let who = match origin {
            Origin::Signed(who) => who,
            _ => {
                return Err(DispatchError::BadOrigin);
            },
        };
        let mut info = match self.authorized_oracle_nodes.get(&who) {
            Some(info) => info,
            None => {
                return Err(DispatchError::Module(Error::UnauthorizedNode));
            },
        };
        if released_amount + penalty_amount != info.stake_amount {
            return Err(DispatchError::Module(Error::AmountMismatch));
        }
        info.state = OracleNodeStakingState::Inactive;
        self.authorized_oracle_nodes.insert(who, info);
        self.issued_withdrawal_certs.remove(&who);
        self.deposit_event(
            Event::WithdrawalConfirmed {
                node: who,
                tx_hash,
                released_amount,
                penalty_amount,
                when,
            },
        );
        assert(self@ =~= withdrawal_confirmed(
            old(self)@,
            who,
            when,
            tx_hash,
            released_amount,
            penalty_amount,
        ));
        Ok(())
    }
}

} // verus!
