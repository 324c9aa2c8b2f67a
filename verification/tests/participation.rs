use charli3_oracle_core::bounded::BoundedVec;
use charli3_oracle_core::primitives::{DispatchError, Origin};
use charli3_oracle_core::staking_participation::{
    CardanoStakeReference, Error, Event, GenesisConfig, GovernanceConfig, OperatorRecord,
    OperatorStatus, Pallet, SlashProposal, StakingCertificate,
};

type Outcome = Result<(), DispatchError<Error>>;

fn account(byte: u8) -> [u8; 32] {
    [byte; 32]
}

fn signed(byte: u8) -> Origin {
    Origin::Signed(account(byte))
}

fn refused(error: Error) -> Outcome {
    Err(DispatchError::Module(error))
}

fn certificate(operator: u8, nonce: u64) -> StakingCertificate {
    StakingCertificate {
        operator_account: BoundedVec::truncate_from(vec![operator; 32]),
        cardano_stake_key_hash: BoundedVec::truncate_from(vec![1]),
        sidechain_pubkey: BoundedVec::truncate_from(vec![2]),
        stake_amount: 500,
        expiry: 90,
        nonce,
    }
}

fn status_of(pallet: &Pallet, operator: u8) -> OperatorStatus {
    pallet.operator_registry.get(&account(operator)).unwrap().status
}

fn join(pallet: &mut Pallet, operator: u8) -> Outcome {
    pallet.request_join(signed(operator), 3, vec![1], 500, vec![2])
}

fn confirm(pallet: &mut Pallet, operator: u8, nonce: u64) -> Outcome {
    pallet.confirm_stake(signed(operator), vec![7], 1, vec![8], vec![9], nonce)
}

/// A pallet with an active operator.
fn active(operator: u8) -> Pallet {
    let mut pallet = Pallet::new();
    join(&mut pallet, operator).unwrap();
    pallet.issue_certificate(true, account(operator), certificate(operator, 11)).unwrap();
    confirm(&mut pallet, operator, 11).unwrap();
    pallet.authorize_node(true, account(operator)).unwrap();
    pallet
}

fn governed(admins: &[u8], threshold: u32) -> Pallet {
    let mut pallet = active(5);
    let genesis = GenesisConfig {
        initial_admins: BoundedVec::truncate_from(admins.iter().map(|a| account(*a)).collect()),
        initial_threshold: threshold,
        bootstrap_operator_count: 0,
    };
    genesis.build(&mut pallet);
    pallet.request_slash(signed(77), account(5), 40, vec![1, 2]).unwrap();
    pallet
}

#[test]
fn operators_go_from_request_to_active() {
    let mut pallet = Pallet::new();
    assert_eq!(join(&mut pallet, 5), Ok(()));
    assert_eq!(
        pallet.operator_registry.get(&account(5)),
        Some(OperatorRecord {
            account: account(5),
            status: OperatorStatus::Requested,
            certificate_nonces: BoundedVec::new(),
        })
    );
    assert_eq!(pallet.issue_certificate(true, account(5), certificate(5, 11)), Ok(()));
    assert_eq!(status_of(&pallet, 5), OperatorStatus::CertificateIssued);
    assert_eq!(pallet.certificates.get(&11), Some(certificate(5, 11)));
    assert_eq!(confirm(&mut pallet, 5, 11), Ok(()));
    assert_eq!(status_of(&pallet, 5), OperatorStatus::StakeConfirmed);
    assert_eq!(
        pallet.cardano_references.get(&11),
        Some(CardanoStakeReference {
            tx_hash: BoundedVec::truncate_from(vec![7]),
            output_index: 1,
            policy_id: BoundedVec::truncate_from(vec![8]),
            asset_name: BoundedVec::truncate_from(vec![9]),
        })
    );
    assert_eq!(pallet.authorize_node(true, account(5)), Ok(()));
    assert_eq!(status_of(&pallet, 5), OperatorStatus::Active);
    assert_eq!(
        pallet.events,
        vec![
            Event::JoinRequested { who: account(5), when: 3 },
            Event::CertificateIssued { operator: account(5), nonce: 11 },
            Event::StakeConfirmed { operator: account(5), nonce: 11 },
            Event::NodeAuthorized { operator: account(5) },
        ]
    );
}

#[test]
fn operators_join_once() {
    let mut pallet = Pallet::new();
    join(&mut pallet, 5).unwrap();
    assert_eq!(join(&mut pallet, 5), refused(Error::AlreadyRegistered));
    assert_eq!(
        pallet.request_join(Origin::Root, 3, vec![], 0, vec![]),
        Err(DispatchError::BadOrigin)
    );
    assert_eq!(pallet.operator_registry.len(), 1);
}

#[test]
fn certificates_are_refused() {
    let mut pallet = Pallet::new();
    join(&mut pallet, 5).unwrap();
    join(&mut pallet, 6).unwrap();
    assert_eq!(
        pallet.issue_certificate(false, account(5), certificate(5, 11)),
        refused(Error::NotAuthorized)
    );
    assert_eq!(
        pallet.issue_certificate(true, account(7), certificate(7, 11)),
        refused(Error::NotRegistered)
    );
    assert_eq!(
        pallet.issue_certificate(true, account(5), certificate(6, 11)),
        refused(Error::InvalidStatus)
    );
    pallet.issue_certificate(true, account(5), certificate(5, 11)).unwrap();
    assert_eq!(
        pallet.issue_certificate(true, account(6), certificate(6, 11)),
        refused(Error::InvalidStatus)
    );
    assert_eq!(
        pallet.issue_certificate(true, account(5), certificate(5, 12)),
        refused(Error::InvalidStatus)
    );
    assert_eq!(pallet.certificates.len(), 1);
}

#[test]
fn stake_confirmations_are_refused() {
    let mut pallet = Pallet::new();
    join(&mut pallet, 5).unwrap();
    join(&mut pallet, 6).unwrap();
    pallet.issue_certificate(true, account(5), certificate(5, 11)).unwrap();
    assert_eq!(confirm(&mut pallet, 7, 11), refused(Error::NotRegistered));
    assert_eq!(confirm(&mut pallet, 5, 12), refused(Error::InvalidStatus));
    assert_eq!(confirm(&mut pallet, 6, 11), refused(Error::InvalidStatus));
    assert_eq!(
        pallet.confirm_stake(signed(5), vec![7; 65], 1, vec![], vec![], 11),
        refused(Error::InvalidStatus)
    );
    assert_eq!(
        pallet.confirm_stake(Origin::Unsigned, vec![], 1, vec![], vec![], 11),
        Err(DispatchError::BadOrigin)
    );
    assert_eq!(status_of(&pallet, 5), OperatorStatus::CertificateIssued);
}

#[test]
fn nodes_are_authorized_by_the_governance() {
    let mut pallet = Pallet::new();
    join(&mut pallet, 5).unwrap();
    assert_eq!(pallet.authorize_node(false, account(5)), refused(Error::NotAuthorized));
    assert_eq!(pallet.authorize_node(true, account(6)), refused(Error::NotRegistered));
    assert_eq!(pallet.authorize_node(true, account(5)), refused(Error::InvalidStatus));
}

#[test]
fn active_operators_retire() {
    let mut pallet = active(5);
    assert_eq!(pallet.request_retire(signed(6)), refused(Error::NotRegistered));
    assert_eq!(pallet.request_retire(Origin::Root), Err(DispatchError::BadOrigin));
    assert_eq!(
        pallet.authorize_retire(true, account(5), 12, 900),
        refused(Error::InvalidStatus)
    );
    assert_eq!(pallet.request_retire(signed(5)), Ok(()));
    assert_eq!(status_of(&pallet, 5), OperatorStatus::PendingRetire);
    assert_eq!(pallet.request_retire(signed(5)), refused(Error::InvalidStatus));
    assert_eq!(
        pallet.authorize_retire(false, account(5), 12, 900),
        refused(Error::NotAuthorized)
    );
    assert_eq!(
        pallet.authorize_retire(true, account(5), 11, 900),
        refused(Error::InvalidStatus)
    );
    assert_eq!(pallet.authorize_retire(true, account(5), 12, 900), Ok(()));
    assert_eq!(status_of(&pallet, 5), OperatorStatus::Retired);
    assert_eq!(
        pallet.operator_registry.get(&account(5)).unwrap().certificate_nonces,
        BoundedVec::truncate_from(vec![11, 12])
    );
    assert_eq!(
        pallet.certificates.get(&12),
        Some(StakingCertificate {
            operator_account: BoundedVec::truncate_from(vec![5; 32]),
            cardano_stake_key_hash: BoundedVec::new(),
            sidechain_pubkey: BoundedVec::new(),
            stake_amount: 0,
            expiry: 900,
            nonce: 12,
        })
    );
    assert_eq!(
        pallet.events[pallet.events.len() - 1],
        Event::RetireAuthorized { operator: account(5), nonce: 12 }
    );
}

#[test]
fn slash_proposals_are_numbered() {
    let mut pallet = active(5);
    assert_eq!(
        pallet.request_slash(signed(77), account(6), 40, vec![]),
        refused(Error::NotRegistered)
    );
    assert_eq!(
        pallet.request_slash(signed(77), account(5), 40, vec![0; 257]),
        refused(Error::InvalidStatus)
    );
    assert_eq!(
        pallet.request_slash(Origin::Root, account(5), 40, vec![]),
        Err(DispatchError::BadOrigin)
    );
    assert_eq!(pallet.request_slash(signed(77), account(5), 40, vec![1, 2]), Ok(()));
    assert_eq!(
        pallet.slash_proposals.get(&0),
        Some(SlashProposal {
            proposer: BoundedVec::truncate_from(vec![77; 32]),
            target_operator: BoundedVec::truncate_from(vec![5; 32]),
            amount: 40,
            reason: BoundedVec::truncate_from(vec![1, 2]),
            approvals: 0,
            rejections: 0,
        })
    );
    pallet.request_slash(signed(77), account(5), 41, vec![]).unwrap();
    assert_eq!(pallet.slash_proposals.get(&1).unwrap().amount, 41);
    assert_eq!(pallet.next_slash_proposal_id, 2);
    assert_eq!(
        pallet.events[pallet.events.len() - 1],
        Event::SlashProposed { proposal_id: 1, operator: account(5) }
    );
}

#[test]
fn proposal_numbers_wrap_around() {
    let mut pallet = active(5);
    pallet.next_slash_proposal_id = u64::MAX;
    pallet.request_slash(signed(77), account(5), 40, vec![]).unwrap();
    assert!(pallet.slash_proposals.contains_key(&u64::MAX));
    assert_eq!(pallet.next_slash_proposal_id, 0);
}

#[test]
fn enough_admins_approve_a_slash() {
    let mut pallet = governed(&[1, 2, 3], 2);
    assert_eq!(pallet.approve_slash(signed(1), 0), Ok(()));
    assert_eq!(pallet.slash_proposals.get(&0).unwrap().approvals, 1);
    assert_eq!(pallet.slash_votes.get(&(0, account(1))), Some(1));
    assert_eq!(pallet.approve_slash(signed(2), 0), Ok(()));
    assert!(!pallet.slash_proposals.contains_key(&0));
    assert_eq!(
        pallet.events[pallet.events.len() - 1],
        Event::SlashApproved { proposal_id: 0, operator: account(5), amount: 40 }
    );
    assert_eq!(pallet.approve_slash(signed(3), 0), refused(Error::ProposalNotFound));
}

#[test]
fn enough_admins_reject_a_slash() {
    let mut pallet = governed(&[1, 2, 3], 2);
    assert_eq!(pallet.reject_slash(signed(1), 0), Ok(()));
    assert_eq!(pallet.approve_slash(signed(3), 0), Ok(()));
    assert_eq!(pallet.slash_votes.get(&(0, account(1))), Some(2));
    assert_eq!(pallet.reject_slash(signed(2), 0), Ok(()));
    assert!(!pallet.slash_proposals.contains_key(&0));
    assert_eq!(
        pallet.events[pallet.events.len() - 1],
        Event::SlashRejected { proposal_id: 0 }
    );
}

#[test]
fn participation_votes_are_refused() {
    let mut pallet = governed(&[1, 2], 2);
    assert_eq!(pallet.approve_slash(signed(9), 0), refused(Error::NotGovernanceAdmin));
    assert_eq!(pallet.reject_slash(signed(9), 0), refused(Error::NotGovernanceAdmin));
    assert_eq!(pallet.approve_slash(signed(1), 8), refused(Error::ProposalNotFound));
    assert_eq!(pallet.reject_slash(Origin::Root, 0), Err(DispatchError::BadOrigin));
    pallet.approve_slash(signed(1), 0).unwrap();
    assert_eq!(pallet.approve_slash(signed(1), 0), refused(Error::AlreadyVoted));
    assert_eq!(pallet.reject_slash(signed(1), 0), refused(Error::AlreadyVoted));
    let mut without = active(5);
    assert_eq!(without.approve_slash(signed(1), 0), refused(Error::NotGovernanceAdmin));
}

#[test]
fn an_unreadable_target_refuses_the_deciding_vote() {
    let mut pallet = governed(&[1], 1);
    let mut proposal = pallet.slash_proposals.get(&0).unwrap();
    proposal.target_operator = BoundedVec::truncate_from(vec![5; 31]);
    pallet.slash_proposals.insert(0, proposal);
    assert_eq!(pallet.approve_slash(signed(1), 0), refused(Error::InvalidStatus));
    assert_eq!(pallet.slash_votes.len(), 0);
    assert_eq!(pallet.slash_proposals.get(&0).unwrap().approvals, 0);
}

#[test]
fn the_governance_keeps_an_active_operator() {
    let mut pallet = active(5);
    let admins = |list: &[u8]| -> BoundedVec<[u8; 32], 16> {
        BoundedVec::truncate_from(list.iter().map(|a| account(*a)).collect())
    };
    assert_eq!(
        pallet.update_governance_authority(false, admins(&[5]), 1),
        refused(Error::NotAuthorized)
    );
    assert_eq!(
        pallet.update_governance_authority(true, admins(&[1, 2]), 1),
        refused(Error::InsufficientOperatorInclusion)
    );
    assert_eq!(pallet.update_governance_authority(true, admins(&[1, 5]), 2), Ok(()));
    assert_eq!(
        pallet.governance_authority,
        Some(GovernanceConfig { admins: admins(&[1, 5]), threshold: 2 })
    );
    assert_eq!(pallet.events[pallet.events.len() - 1], Event::GovernanceAuthorityUpdated);
    pallet.bootstrap_operator_count = 2;
    assert_eq!(pallet.update_governance_authority(true, admins(&[1]), 1), Ok(()));
}

#[test]
fn the_default_genesis_has_no_admins() {
    let mut pallet = Pallet::new();
    GenesisConfig::default().build(&mut pallet);
    assert_eq!(
        pallet.governance_authority,
        Some(GovernanceConfig { admins: BoundedVec::new(), threshold: 1 })
    );
    assert_eq!(pallet.bootstrap_operator_count, 0);
}
