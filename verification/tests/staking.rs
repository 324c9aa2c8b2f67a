use charli3_oracle_core::bounded::BoundedVec;
use charli3_oracle_core::model::Model;
use charli3_oracle_core::pallet::{
    Error, Event, IssuedStakingCert, IssuedWithdrawalCert, NodeStakingInfo,
    OracleNodeStakingState, Pallet, SlashProposal, SlashVote, StakingTerms,
};
use charli3_oracle_core::primitives::{DispatchError, Origin};

type Outcome = Result<(), DispatchError<Error>>;

fn account(byte: u8) -> [u8; 32] {
    [byte; 32]
}

fn signed(byte: u8) -> Origin {
    Origin::Signed(account(byte))
}

fn refused(error: Error) -> Outcome {
    Err(DispatchError::Module(error))
}

fn pkh(byte: u8) -> BoundedVec<u8, 32> {
    BoundedVec::truncate_from(vec![byte; 28])
}

fn info(state: OracleNodeStakingState, stake_amount: u64) -> NodeStakingInfo {
    NodeStakingInfo {
        stake_amount,
        state,
        stake_activated_at: 0,
        cardano_pkh_admin: BoundedVec::new(),
        cardano_pkh_aggregation: BoundedVec::new(),
    }
}

/// A pallet with nodes in given states, each with a stake of 100.
fn with_states(nodes: &[(u8, OracleNodeStakingState)]) -> Pallet {
    let mut pallet = Pallet::new();
    for (node, state) in nodes {
        pallet.authorized_oracle_nodes.insert(account(*node), info(*state, 100));
    }
    pallet
}

fn state_of(pallet: &Pallet, node: u8) -> OracleNodeStakingState {
    pallet.authorized_oracle_nodes.get(&account(node)).unwrap().state
}

fn approve(pallet: &mut Pallet, admin: u8, node: u8, amount: u64) -> Outcome {
    pallet.generate_staking_certificate(
        signed(admin),
        5,
        account(node),
        amount,
        50,
        pkh(1),
        pkh(2),
        account(admin + 100),
        [admin; 64],
    )
}

fn approve_withdrawal(pallet: &mut Pallet, admin: u8, node: u8, amount: u64) -> Outcome {
    pallet.generate_withdrawal_certificate(
        signed(admin),
        5,
        account(node),
        amount,
        account(admin + 100),
        [admin; 64],
    )
}

fn terms() -> StakingTerms {
    StakingTerms {
        stake_amount: 700,
        lock_until: 50,
        cardano_pkh_admin: pkh(1),
        cardano_pkh_aggregation: pkh(2),
    }
}

#[test]
fn a_staking_certificate_needs_two_admins_by_default() {
    let mut pallet = with_states(&[(9, OracleNodeStakingState::Inactive)]);
    assert_eq!(approve(&mut pallet, 2, 9, 700), Ok(()));
    assert_eq!(state_of(&pallet, 9), OracleNodeStakingState::Inactive);
    assert_eq!(pallet.staking_approval_info.get(&account(9)), Some(terms()));
    assert_eq!(
        pallet.events,
        vec![Event::StakingApprovalSigned { node: account(9), signer: account(2), when: 5 }]
    );
    assert_eq!(approve(&mut pallet, 1, 9, 700), Ok(()));
    let certificate = IssuedStakingCert {
        terms: terms(),
        sigs: BoundedVec::truncate_from(vec![
            (account(101), [1; 64]),
            (account(102), [2; 64]),
        ]),
    };
    assert_eq!(pallet.issued_staking_certs.get(&account(9)), Some(certificate.duplicate()));
    assert_eq!(pallet.staking_approval_info.len(), 0);
    assert_eq!(pallet.staking_approval_sigs.len(), 0);
    let node = pallet.authorized_oracle_nodes.get(&account(9)).unwrap();
    assert_eq!(node.state, OracleNodeStakingState::StakingApproved);
    assert_eq!(node.stake_amount, 700);
    assert_eq!(node.cardano_pkh_admin, pkh(1));
    assert_eq!(node.cardano_pkh_aggregation, pkh(2));
    assert_eq!(
        pallet.events[1],
        Event::StakingCertificateIssued { node: account(9), certificate, when: 5 }
    );
}

#[test]
fn the_configured_number_of_admins_signs() {
    let mut pallet = with_states(&[(9, OracleNodeStakingState::Inactive)]);
    pallet.min_nodes_for_trusted_aggregation = Some(1);
    assert_eq!(approve(&mut pallet, 2, 9, 700), Ok(()));
    assert_eq!(state_of(&pallet, 9), OracleNodeStakingState::StakingApproved);
}

#[test]
fn a_certificate_carries_at_most_32_signatures() {
    let mut pallet = with_states(&[(200, OracleNodeStakingState::Inactive)]);
    pallet.min_nodes_for_trusted_aggregation = Some(40);
    for admin in 1..=40 {
        assert_eq!(approve(&mut pallet, admin, 200, 700), Ok(()));
    }
    let certificate = pallet.issued_staking_certs.get(&account(200)).unwrap();
    assert_eq!(certificate.sigs.len(), 32);
    assert_eq!(certificate.sigs.get(31), Some(&(account(132), [32; 64])));
}

#[test]
fn staking_approvals_are_refused() {
    let mut pallet = with_states(&[
        (9, OracleNodeStakingState::Inactive),
        (8, OracleNodeStakingState::ActiveStake),
    ]);
    assert_eq!(approve(&mut pallet, 9, 9, 700), refused(Error::CannotVoteForSelf));
    assert_eq!(approve(&mut pallet, 9, 7, 700), refused(Error::UnauthorizedNode));
    assert_eq!(approve(&mut pallet, 9, 8, 700), refused(Error::InvalidNodeState));
    let unsigned = pallet.generate_staking_certificate(
        Origin::Root, 5, account(9), 700, 50, pkh(1), pkh(2), account(1), [1; 64],
    );
    assert_eq!(unsigned, Err(DispatchError::BadOrigin));
    assert_eq!(pallet.events, vec![]);
    assert_eq!(approve(&mut pallet, 1, 9, 700), Ok(()));
    assert_eq!(approve(&mut pallet, 1, 9, 700), refused(Error::AlreadySigned));
    assert_eq!(approve(&mut pallet, 2, 9, 701), refused(Error::ProposalMismatch));
    assert_eq!(pallet.events.len(), 1);
}

#[test]
fn a_confirmed_stake_activates_the_node() {
    let mut pallet = with_states(&[(9, OracleNodeStakingState::Inactive)]);
    approve(&mut pallet, 1, 9, 700).unwrap();
    approve(&mut pallet, 2, 9, 700).unwrap();
    assert_eq!(pallet.confirm_cardano_stake(signed(9), 7, [3; 32]), Ok(()));
    assert_eq!(state_of(&pallet, 9), OracleNodeStakingState::ActiveStake);
    assert!(!pallet.issued_staking_certs.contains_key(&account(9)));
    assert_eq!(
        pallet.events[2],
        Event::StakingConfirmed { node: account(9), tx_hash: [3; 32], stake_amount: 700, when: 7 }
    );
}

#[test]
fn only_approved_nodes_confirm_their_stake() {
    let mut pallet = with_states(&[(9, OracleNodeStakingState::Inactive)]);
    assert_eq!(
        pallet.confirm_cardano_stake(signed(9), 7, [3; 32]),
        refused(Error::InvalidNodeState)
    );
    assert_eq!(
        pallet.confirm_cardano_stake(signed(8), 7, [3; 32]),
        refused(Error::UnauthorizedNode)
    );
    assert_eq!(
        pallet.confirm_cardano_stake(Origin::Root, 7, [3; 32]),
        Err(DispatchError::BadOrigin)
    );
}

#[test]
fn active_nodes_retire() {
    let mut pallet = with_states(&[(9, OracleNodeStakingState::ActiveStake)]);
    assert_eq!(pallet.request_retire(signed(8), 7), refused(Error::UnauthorizedNode));
    assert_eq!(pallet.request_retire(Origin::Unsigned, 7), Err(DispatchError::BadOrigin));
    assert_eq!(pallet.request_retire(signed(9), 7), Ok(()));
    assert_eq!(state_of(&pallet, 9), OracleNodeStakingState::RetireStake);
    assert_eq!(pallet.request_retire(signed(9), 8), refused(Error::InvalidNodeState));
    assert_eq!(pallet.events, vec![Event::RetireRequested { node: account(9), when: 7 }]);
}

#[test]
fn the_root_issues_retire_certificates() {
    let mut pallet = with_states(&[(9, OracleNodeStakingState::RetireStake)]);
    assert_eq!(
        pallet.generate_retire_certificate(signed(9), 7, account(9), 50, 60),
        Err(DispatchError::BadOrigin)
    );
    assert_eq!(
        pallet.generate_retire_certificate(Origin::Root, 7, account(8), 50, 60),
        refused(Error::UnauthorizedNode)
    );
    assert_eq!(pallet.generate_retire_certificate(Origin::Root, 7, account(9), 50, 60), Ok(()));
    assert_eq!(state_of(&pallet, 9), OracleNodeStakingState::RetireStake);
    assert_eq!(
        pallet.events,
        vec![Event::RetireCertificateIssued { node: account(9), lock_until: 50, when: 7 }]
    );
}

#[test]
fn anyone_proposes_a_slash() {
    let mut pallet = with_states(&[(9, OracleNodeStakingState::RetireStake)]);
    assert_eq!(pallet.request_slash(signed(77), 4, account(9), 99), Ok(()));
    assert_eq!(state_of(&pallet, 9), OracleNodeStakingState::SlashVoting);
    assert_eq!(
        pallet.slash_proposals.get(&account(9)),
        Some(SlashProposal { slash_amount: 99, initiated_by: account(77), when: 4 })
    );
    assert_eq!(
        pallet.events,
        vec![Event::SlashRequested {
            node: account(9),
            slash_amount: 99,
            initiated_by: account(77),
            when: 4
        }]
    );
}

#[test]
fn slash_proposals_are_refused() {
    let mut pallet = with_states(&[
        (9, OracleNodeStakingState::ActiveStake),
        (8, OracleNodeStakingState::Inactive),
    ]);
    assert_eq!(
        pallet.request_slash(signed(1), 4, account(9), 100),
        refused(Error::SlashAmountInvalid)
    );
    assert_eq!(
        pallet.request_slash(signed(1), 4, account(8), 10),
        refused(Error::InvalidNodeState)
    );
    assert_eq!(
        pallet.request_slash(signed(1), 4, account(7), 10),
        refused(Error::UnauthorizedNode)
    );
    assert_eq!(
        pallet.request_slash(Origin::Root, 4, account(9), 10),
        Err(DispatchError::BadOrigin)
    );
    assert_eq!(pallet.events, vec![]);
}

fn in_vote() -> Pallet {
    let mut pallet = with_states(&[
        (1, OracleNodeStakingState::ActiveStake),
        (2, OracleNodeStakingState::ActiveStake),
        (3, OracleNodeStakingState::ActiveStake),
        (9, OracleNodeStakingState::ActiveStake),
    ]);
    pallet.request_slash(signed(1), 4, account(9), 40).unwrap();
    pallet
}

#[test]
fn half_of_the_nodes_approve_a_slash() {
    let mut pallet = in_vote();
    assert_eq!(pallet.vote_slash(signed(1), 5, account(9), SlashVote::Approve), Ok(()));
    assert_eq!(pallet.vote_slash(signed(2), 5, account(9), SlashVote::Deny), Ok(()));
    assert_eq!(state_of(&pallet, 9), OracleNodeStakingState::SlashVoting);
    assert_eq!(pallet.vote_slash(signed(3), 6, account(9), SlashVote::Approve), Ok(()));
    assert_eq!(state_of(&pallet, 9), OracleNodeStakingState::SlashApproved);
    assert_eq!(pallet.slash_votes.len(), 0);
    assert_eq!(pallet.slash_proposals.len(), 0);
    assert_eq!(
        pallet.events[pallet.events.len() - 2..],
        [
            Event::SlashVoteCast {
                node: account(9),
                voter: account(3),
                vote: SlashVote::Approve,
                when: 6
            },
            Event::SlashApproved {
                node: account(9),
                slash_amount: 40,
                approve_count: 2,
                deny_count: 1,
                when: 6
            },
        ]
    );
}

#[test]
fn a_denied_slash_leaves_the_node_retiring() {
    let mut pallet = in_vote();
    pallet.vote_slash(signed(1), 5, account(9), SlashVote::Deny).unwrap();
    pallet.vote_slash(signed(2), 5, account(9), SlashVote::Deny).unwrap();
    assert_eq!(state_of(&pallet, 9), OracleNodeStakingState::RetireStake);
    assert_eq!(pallet.slash_votes.len(), 0);
    assert_eq!(
        pallet.events[pallet.events.len() - 1],
        Event::SlashRejected { node: account(9), approve_count: 0, deny_count: 2, when: 5 }
    );
}

#[test]
fn a_node_may_change_its_vote() {
    let mut pallet = in_vote();
    pallet.vote_slash(signed(1), 5, account(9), SlashVote::Deny).unwrap();
    pallet.vote_slash(signed(1), 5, account(9), SlashVote::Approve).unwrap();
    assert_eq!(pallet.slash_votes.len(), 1);
    assert_eq!(
        pallet.slash_votes.get(&(account(9), account(1))),
        Some(SlashVote::Approve)
    );
    assert_eq!(state_of(&pallet, 9), OracleNodeStakingState::SlashVoting);
}

#[test]
fn slash_votes_are_refused() {
    let mut pallet = in_vote();
    let events = pallet.events.len();
    assert_eq!(
        pallet.vote_slash(signed(50), 5, account(9), SlashVote::Approve),
        refused(Error::UnauthorizedNode)
    );
    assert_eq!(
        pallet.vote_slash(signed(9), 5, account(9), SlashVote::Deny),
        refused(Error::CannotVoteForSelf)
    );
    assert_eq!(
        pallet.vote_slash(signed(1), 5, account(50), SlashVote::Deny),
        refused(Error::UnauthorizedNode)
    );
    assert_eq!(
        pallet.vote_slash(signed(1), 5, account(2), SlashVote::Deny),
        refused(Error::NoActiveSlash)
    );
    assert_eq!(
        pallet.vote_slash(Origin::Root, 5, account(9), SlashVote::Deny),
        Err(DispatchError::BadOrigin)
    );
    assert_eq!(pallet.events.len(), events);
    assert_eq!(pallet.slash_votes.len(), 0);
}

#[test]
fn a_deciding_vote_without_a_proposal_is_undone() {
    let mut pallet = in_vote();
    pallet.slash_proposals.remove(&account(9));
    pallet.vote_slash(signed(1), 5, account(9), SlashVote::Approve).unwrap();
    let events = pallet.events.len();
    assert_eq!(
        pallet.vote_slash(signed(2), 5, account(9), SlashVote::Approve),
        refused(Error::NoActiveSlash)
    );
    assert_eq!(pallet.slash_votes.len(), 1);
    assert_eq!(pallet.events.len(), events);
}

#[test]
fn a_withdrawal_certificate_needs_two_admins_by_default() {
    let mut pallet = with_states(&[(9, OracleNodeStakingState::RetireStake)]);
    assert_eq!(approve_withdrawal(&mut pallet, 1, 9, 60), Ok(()));
    assert_eq!(pallet.withdrawal_approval_info.get(&account(9)), Some(60));
    assert_eq!(approve_withdrawal(&mut pallet, 2, 9, 60), Ok(()));
    let certificate = IssuedWithdrawalCert {
        approved_amount: 60,
        sigs: BoundedVec::truncate_from(vec![
            (account(101), [1; 64]),
            (account(102), [2; 64]),
        ]),
    };
    assert_eq!(pallet.issued_withdrawal_certs.get(&account(9)), Some(certificate.duplicate()));
    assert_eq!(pallet.withdrawal_approval_info.len(), 0);
    assert_eq!(pallet.withdrawal_approval_sigs.len(), 0);
    assert_eq!(
        pallet.events,
        vec![
            Event::WithdrawalApprovalSigned { node: account(9), signer: account(1), when: 5 },
            Event::WithdrawalCertificateIssued { node: account(9), certificate, when: 5 },
        ]
    );
}

#[test]
fn withdrawal_approvals_are_refused() {
    let mut pallet = with_states(&[(9, OracleNodeStakingState::RetireStake)]);
    assert_eq!(approve_withdrawal(&mut pallet, 9, 9, 60), refused(Error::CannotVoteForSelf));
    assert_eq!(approve_withdrawal(&mut pallet, 1, 8, 60), refused(Error::UnauthorizedNode));
    assert_eq!(approve_withdrawal(&mut pallet, 1, 9, 101), refused(Error::ApprovedAmountInvalid));
    assert_eq!(approve_withdrawal(&mut pallet, 1, 9, 100), Ok(()));
    assert_eq!(approve_withdrawal(&mut pallet, 2, 9, 99), refused(Error::ProposalMismatch));
    assert_eq!(approve_withdrawal(&mut pallet, 1, 9, 100), refused(Error::AlreadySigned));
    let by_root = pallet.generate_withdrawal_certificate(
        Origin::Root, 5, account(9), 60, account(1), [1; 64],
    );
    assert_eq!(by_root, Err(DispatchError::BadOrigin));
}

#[test]
fn a_withdrawal_makes_up_the_stake() {
    let mut pallet = with_states(&[(9, OracleNodeStakingState::SlashApproved)]);
    approve_withdrawal(&mut pallet, 1, 9, 60).unwrap();
    approve_withdrawal(&mut pallet, 2, 9, 60).unwrap();
    assert_eq!(
        pallet.confirm_cardano_withdrawal(signed(9), 8, [4; 32], 60, 39),
        refused(Error::AmountMismatch)
    );
    assert_eq!(
        pallet.confirm_cardano_withdrawal(signed(8), 8, [4; 32], 60, 40),
        refused(Error::UnauthorizedNode)
    );
    assert_eq!(
        pallet.confirm_cardano_withdrawal(Origin::Root, 8, [4; 32], 60, 40),
        Err(DispatchError::BadOrigin)
    );
    assert_eq!(pallet.confirm_cardano_withdrawal(signed(9), 8, [4; 32], 60, 40), Ok(()));
    assert_eq!(state_of(&pallet, 9), OracleNodeStakingState::Inactive);
    assert!(!pallet.issued_withdrawal_certs.contains_key(&account(9)));
    assert_eq!(
        pallet.events[pallet.events.len() - 1],
        Event::WithdrawalConfirmed {
            node: account(9),
            tx_hash: [4; 32],
            released_amount: 60,
            penalty_amount: 40,
            when: 8
        }
    );
}
