//! The calls of the staking participation pallet.
use crate::bounded::{lemma_byte_models, BoundedVec};
use crate::model::{same_array, Model};
use crate::primitives::{outcome, AccountId, BlockNumber, DispatchError, Origin};
use crate::scale::{account_of, decode_account, encode_account};
use crate::sorted_map::{listing, SortedMap};
use crate::staking_participation::laws::{applied, CallModel};
use crate::staking_participation::types::{
    duplicate_accounts, CardanoStakeReference, CertificateModel, GovernanceConfig, GovernanceModel,
    OperatorModel, OperatorRecord, OperatorStatus, ProposalModel, ReferenceModel, SlashProposal,
    StakingCertificate,
};
use vstd::prelude::*;

verus! {

#[derive(Clone, Copy, Debug, PartialEq, Eq, Structural)]
pub enum Error {
    AlreadyRegistered,
    NotRegistered,
    InvalidStatus,
    NotAuthorized,
    ProposalNotFound,
    AlreadyVoted,
    NotGovernanceAdmin,
    InsufficientOperatorInclusion,
}

#[allow(inconsistent_fields)]
#[derive(Clone, Copy, Debug, PartialEq, Eq)]
pub enum Event {
    JoinRequested { who: AccountId, when: BlockNumber },
    CertificateIssued { operator: AccountId, nonce: u64 },
    StakeConfirmed { operator: AccountId, nonce: u64 },
    NodeAuthorized { operator: AccountId },
    RetireRequested { operator: AccountId },
    RetireAuthorized { operator: AccountId, nonce: u64 },
    SlashProposed { proposal_id: u64, operator: AccountId },
    SlashApproved { proposal_id: u64, operator: AccountId, amount: u128 },
    SlashRejected { proposal_id: u64 },
    GovernanceAuthorityUpdated,
}

/// The storage of the pallet and the events it has deposited.
#[derive(Debug, PartialEq, Eq)]
pub struct Pallet {
    /// Registry of operators
    pub operator_registry: SortedMap<AccountId, OperatorRecord>,
    /// Certificates by nonce
    pub certificates: SortedMap<u64, StakingCertificate>,
    /// Cardano stake references indexed by certificate nonce
    pub cardano_references: SortedMap<u64, CardanoStakeReference>,
    /// Governance authority config: admin keys and threshold
    pub governance_authority: Option<GovernanceConfig>,
    /// Bootstrap operator count threshold used to determine when operator keys must be part of the
    /// admin set
    pub bootstrap_operator_count: u32,
    /// Slash proposals indexed by proposal id
    pub slash_proposals: SortedMap<u64, SlashProposal>,
    /// Next slash proposal id
    pub next_slash_proposal_id: u64,
    /// Votes by proposal and account (1 approve, 2 reject)
    pub slash_votes: SortedMap<(u64, AccountId), u8>,
    pub events: Vec<Event>,
}

#[verifier::ext_equal]
pub struct PalletModel {
    pub operator_registry: Map<AccountId, OperatorModel>,
    pub certificates: Map<u64, CertificateModel>,
    pub cardano_references: Map<u64, ReferenceModel>,
    pub governance_authority: Option<GovernanceModel>,
    pub bootstrap_operator_count: u32,
    pub slash_proposals: Map<u64, ProposalModel>,
    pub next_slash_proposal_id: u64,
    pub slash_votes: Map<(u64, AccountId), u8>,
    pub events: Seq<Event>,
}

impl View for Pallet {
    type V = PalletModel;

    open spec fn view(&self) -> PalletModel {
        PalletModel {
            operator_registry: self.operator_registry@,
            certificates: self.certificates@,
            cardano_references: self.cardano_references@,
            governance_authority: self.governance_authority.model(),
            bootstrap_operator_count: self.bootstrap_operator_count,
            slash_proposals: self.slash_proposals@,
            next_slash_proposal_id: self.next_slash_proposal_id,
            slash_votes: self.slash_votes@,
            events: self.events@,
        }
    }
}

/// A pallet without any storage.
pub open spec fn empty_pallet() -> PalletModel {
    PalletModel {
        operator_registry: Map::empty(),
        certificates: Map::empty(),
        cardano_references: Map::empty(),
        governance_authority: None,
        bootstrap_operator_count: 0,
        slash_proposals: Map::empty(),
        next_slash_proposal_id: 0,
        slash_votes: Map::empty(),
        events: Seq::empty(),
    }
}

// ---------------------------------------------------------------------------------------------
// Joining

pub open spec fn refused(error: Error) -> Option<DispatchError<Error>> {
    Some(DispatchError::Module(error))
}

pub open spec fn with_status(record: OperatorModel, status: OperatorStatus) -> OperatorModel {
    OperatorModel { status, ..record }
}

/// The operator is registered and in the given state.
pub open spec fn status_refusal(s: PalletModel, operator: AccountId, status: OperatorStatus) -> Option<
    DispatchError<Error>,
> {
    if !s.operator_registry.contains_key(operator) {
        refused(Error::NotRegistered)
    } else if s.operator_registry[operator].status != status {
        refused(Error::InvalidStatus)
    } else {
        None
    }
}

pub open spec fn join_refusal(s: PalletModel, origin: Origin) -> Option<DispatchError<Error>> {
    match origin {
        Origin::Signed(who) => if s.operator_registry.contains_key(who) {
            refused(Error::AlreadyRegistered)
        } else {
            None
        },
        _ => Some(DispatchError::BadOrigin),
    }
}

pub open spec fn join_requested(s: PalletModel, who: AccountId, when: BlockNumber) -> PalletModel {
    PalletModel {
        operator_registry: s.operator_registry.insert(
            who,
            OperatorModel {
                account: who,
                status: OperatorStatus::Requested,
                certificate_nonces: Seq::empty(),
            },
        ),
        events: s.events.push(Event::JoinRequested { who, when }),
        ..s
    }
}

/// Why a certificate is not issued to an operator. `governance` tells whether the governance makes
/// the call.
pub open spec fn issue_refusal(
    s: PalletModel,
    governance: bool,
    operator: AccountId,
    certificate: CertificateModel,
) -> Option<DispatchError<Error>> {
    if !governance {
        refused(Error::NotAuthorized)
    } else if status_refusal(s, operator, OperatorStatus::Requested) is Some {
        status_refusal(s, operator, OperatorStatus::Requested)
    } else if s.certificates.contains_key(certificate.nonce) || certificate.operator_account
        != operator@ || s.operator_registry[operator].certificate_nonces.len() >= 128 {
        refused(Error::InvalidStatus)
    } else {
        None
    }
}

/// The storage with a new certificate of an operator, who is then in the given state.
pub open spec fn certified(
    s: PalletModel,
    operator: AccountId,
    certificate: CertificateModel,
    status: OperatorStatus,
    event: Event,
) -> PalletModel {
    let record = s.operator_registry[operator];
    PalletModel {
        certificates: s.certificates.insert(certificate.nonce, certificate),
        operator_registry: s.operator_registry.insert(
            operator,
            OperatorModel {
                status,
                certificate_nonces: record.certificate_nonces.push(certificate.nonce),
                ..record
            },
        ),
        events: s.events.push(event),
        ..s
    }
}

/// Why an operator may not confirm the stake for a certificate.
pub open spec fn confirm_refusal(
    s: PalletModel,
    origin: Origin,
    tx_hash: Seq<u8>,
    policy_id: Seq<u8>,
    asset_name: Seq<u8>,
    nonce: u64,
) -> Option<DispatchError<Error>> {
    match origin {
        Origin::Signed(who) => if !s.operator_registry.contains_key(who) {
            refused(Error::NotRegistered)
        } else if !s.certificates.contains_key(nonce) || s.operator_registry[who].status
            != OperatorStatus::CertificateIssued
            || !s.operator_registry[who].certificate_nonces.contains(nonce) || tx_hash.len() > 64
            || policy_id.len() > 64 || asset_name.len() > 64 {
            refused(Error::InvalidStatus)
        } else {
            None
        },
        _ => Some(DispatchError::BadOrigin),
    }
}

pub open spec fn stake_confirmed(
    s: PalletModel,
    who: AccountId,
    nonce: u64,
    reference: ReferenceModel,
) -> PalletModel {
    PalletModel {
        cardano_references: s.cardano_references.insert(nonce, reference),
        operator_registry: s.operator_registry.insert(
            who,
            with_status(s.operator_registry[who], OperatorStatus::StakeConfirmed),
        ),
        events: s.events.push(Event::StakeConfirmed { operator: who, nonce }),
        ..s
    }
}

/// Why the governance may not move an operator on from a state.
pub open spec fn governance_refusal(
    s: PalletModel,
    governance: bool,
    operator: AccountId,
    status: OperatorStatus,
) -> Option<DispatchError<Error>> {
    if !governance {
        refused(Error::NotAuthorized)
    } else {
        status_refusal(s, operator, status)
    }
}

/// The storage with an operator in a new state.
pub open spec fn moved(
    s: PalletModel,
    operator: AccountId,
    status: OperatorStatus,
    event: Event,
) -> PalletModel {
    PalletModel {
        operator_registry: s.operator_registry.insert(
            operator,
            with_status(s.operator_registry[operator], status),
        ),
        events: s.events.push(event),
        ..s
    }
}

/// Why a retire request is refused.
pub open spec fn retire_refusal(s: PalletModel, origin: Origin) -> Option<DispatchError<Error>> {
    match origin {
        Origin::Signed(who) => status_refusal(s, who, OperatorStatus::Active),
        _ => Some(DispatchError::BadOrigin),
    }
}

/// Why the governance may not authorize an operator to retire.
pub open spec fn authorize_retire_refusal(
    s: PalletModel,
    governance: bool,
    operator: AccountId,
    nonce: u64,
) -> Option<DispatchError<Error>> {
    if governance_refusal(s, governance, operator, OperatorStatus::PendingRetire) is Some {
        governance_refusal(s, governance, operator, OperatorStatus::PendingRetire)
    } else if s.certificates.contains_key(nonce)
        || s.operator_registry[operator].certificate_nonces.len() >= 128 {
        refused(Error::InvalidStatus)
    } else {
        None
    }
}

/// The certificate of an operator that may retire: it is for no stake and expires when the lock
/// ends.
pub open spec fn retire_certificate(operator: AccountId, nonce: u64, lock_until: u64) -> CertificateModel {
    CertificateModel {
        operator_account: operator@,
        cardano_stake_key_hash: Seq::empty(),
        sidechain_pubkey: Seq::empty(),
        stake_amount: 0,
        expiry: lock_until,
        nonce,
    }
}

fn contains_nonce(nonces: &BoundedVec<u64, 128>, nonce: u64) -> (r: bool)
    ensures
        r == nonces@.contains(nonce),
{
    let n: usize = nonces.len();
    for i in 0..n
        invariant
            n == nonces@.len(),
            forall|j: int| 0 <= j < i ==> nonces@[j] != nonce,
    {
        if *nonces.at(i) == nonce {
            assert(nonces@[i as int] == nonce);
            return true;
        }
    }
    false
}

fn contains_account(accounts: &BoundedVec<AccountId, 16>, account: &AccountId) -> (r: bool)
    ensures
        r == accounts@.contains(*account),
{
    let n: usize = accounts.len();
    for i in 0..n
        invariant
            n == accounts@.len(),
            forall|j: int| 0 <= j < i ==> accounts@[j] != account,
    {
        if same_array(accounts.at(i), account) {
            assert(accounts@[i as int] == account);
            return true;
        }
    }
    false
}

impl Pallet {
    pub fn new() -> (pallet: Pallet)
        ensures
            pallet@ == empty_pallet(),
    {
        let pallet = Pallet {
            operator_registry: SortedMap::new(),
            certificates: SortedMap::new(),
            cardano_references: SortedMap::new(),
            governance_authority: None,
            bootstrap_operator_count: 0,
            slash_proposals: SortedMap::new(),
            next_slash_proposal_id: 0,
            slash_votes: SortedMap::new(),
            events: Vec::new(),
        };
        assert(pallet@ =~= empty_pallet());
        pallet
    }

    /// An account asks to become an operator.
    pub fn request_join(
        &mut self,
        origin: Origin,
        when: BlockNumber,
        _cardano_stake_key: Vec<u8>,
        _stake_amount: u128,
        _sidechain_pubkey: Vec<u8>,
    ) -> (r: Result<(), DispatchError<Error>>)
        ensures
            final(self)@ == applied(
                old(self)@,
                CallModel::RequestJoin { origin, when },
            ),
            r == outcome(join_refusal(old(self)@, origin)),
            final(self)@ == if join_refusal(old(self)@, origin) is Some {
                old(self)@
            } else {
                join_requested(old(self)@, origin->Signed_0, when)
            },
    {
        let who = match origin {
            Origin::Signed(who) => who,
            _ => {
                return Err(DispatchError::BadOrigin);
            },
        };
        if self.operator_registry.contains_key(&who) {
            return Err(DispatchError::Module(Error::AlreadyRegistered));
        }
        let record = OperatorRecord {
            account: who,
            status: OperatorStatus::Requested,
            certificate_nonces: BoundedVec::new(),
        };
        self.operator_registry.insert(who, record);
        self.events.push(Event::JoinRequested { who, when });
        assert(self@ =~= join_requested(old(self)@, who, when));
        Ok(())
    }

    /// The governance issues a staking certificate to an operator that asked to join.
    pub fn issue_certificate(
        &mut self,
        governance: bool,
        operator: AccountId,
        certificate: StakingCertificate,
    ) -> (r: Result<(), DispatchError<Error>>)
        ensures
            final(self)@ == applied(
                old(self)@,
                CallModel::IssueCertificate { governance, operator, certificate: certificate.model() },
            ),
            ({
                let refusal = issue_refusal(
                    old(self)@,
                    governance,
                    operator,
                    certificate.model(),
                );
                &&& r == outcome(refusal)
                &&& final(self)@ == if refusal is Some {
                    old(self)@
                } else {
                    certified(
                        old(self)@,
                        operator,
                        certificate.model(),
                        OperatorStatus::CertificateIssued,
                        Event::CertificateIssued { operator, nonce: certificate.nonce },
                    )
                }
            }),
    {
        if !governance {
            return Err(DispatchError::Module(Error::NotAuthorized));
        }
        let mut record = match self.operator_registry.get(&operator) {
            Some(record) => record,
            None => {
                return Err(DispatchError::Module(Error::NotRegistered));
            },
        };
        if record.status != OperatorStatus::Requested {
            return Err(DispatchError::Module(Error::InvalidStatus));
        }
        let nonce: u64 = certificate.nonce;
        if self.certificates.contains_key(&nonce) {
            return Err(DispatchError::Module(Error::InvalidStatus));
        }
        let encoded_op = encode_account(&operator);
        proof {
            lemma_byte_models(certificate.operator_account@);
        }
        if !crate::model::same_bytes(
            encoded_op.as_slice(),
            certificate.operator_account.as_vec().as_slice(),
        ) {
            return Err(DispatchError::Module(Error::InvalidStatus));
        }
        record.status = OperatorStatus::CertificateIssued;
        match record.certificate_nonces.try_push(nonce) {
            Ok(()) => {},
            Err(_) => {
                return Err(DispatchError::Module(Error::InvalidStatus));
            },
        }
        let ghost model = certificate.model();
        self.certificates.insert(nonce, certificate);
        self.operator_registry.insert(operator, record);
        self.events.push(Event::CertificateIssued { operator, nonce });
        assert(self@ =~= certified(
            old(self)@,
            operator,
            model,
            OperatorStatus::CertificateIssued,
            Event::CertificateIssued { operator, nonce },
        ));
        Ok(())
    }

    /// An operator confirms that its stake was placed on Cardano.
    pub fn confirm_stake(
        &mut self,
        origin: Origin,
        tx_hash: Vec<u8>,
        output_index: u32,
        policy_id: Vec<u8>,
        asset_name: Vec<u8>,
        certificate_nonce: u64,
    ) -> (r: Result<(), DispatchError<Error>>)
        ensures
            final(self)@ == applied(
                old(self)@,
                CallModel::ConfirmStake {
                    origin,
                    reference: ReferenceModel {
                        tx_hash: tx_hash@,
                        output_index,
                        policy_id: policy_id@,
                        asset_name: asset_name@,
                    },
                    nonce: certificate_nonce,
                },
            ),
            ({
                let refusal = confirm_refusal(
                    old(self)@,
                    origin,
                    tx_hash@,
                    policy_id@,
                    asset_name@,
                    certificate_nonce,
                );
                &&& r == outcome(refusal)
                &&& final(self)@ == if refusal is Some {
                    old(self)@
                } else {
                    stake_confirmed(
                        old(self)@,
                        origin->Signed_0,
                        certificate_nonce,
                        ReferenceModel {
                            tx_hash: tx_hash@,
                            output_index,
                            policy_id: policy_id@,
                            asset_name: asset_name@,
                        },
                    )
                }
            }),
    {
        let ghost reference = ReferenceModel {
            tx_hash: tx_hash@,
            output_index,
            policy_id: policy_id@,
            asset_name: asset_name@,
        };
        let who = match origin {
            Origin::Signed(who) => who,
            _ => {
                return Err(DispatchError::BadOrigin);
            },
        };
        let mut record = match self.operator_registry.get(&who) {
            Some(record) => record,
            None => {
                return Err(DispatchError::Module(Error::NotRegistered));
            },
        };
        if !self.certificates.contains_key(&certificate_nonce) {
            return Err(DispatchError::Module(Error::InvalidStatus));
        }
        if record.status != OperatorStatus::CertificateIssued {
            return Err(DispatchError::Module(Error::InvalidStatus));
        }
        if !contains_nonce(&record.certificate_nonces, certificate_nonce) {
            return Err(DispatchError::Module(Error::InvalidStatus));
        }
        let tx_bv = match BoundedVec::try_from(tx_hash) {
            Ok(bounded) => bounded,
            Err(_) => {
                return Err(DispatchError::Module(Error::InvalidStatus));
            },
        };
        let policy_bv = match BoundedVec::try_from(policy_id) {
            Ok(bounded) => bounded,
            Err(_) => {
                return Err(DispatchError::Module(Error::InvalidStatus));
            },
        };
        let asset_bv = match BoundedVec::try_from(asset_name) {
            Ok(bounded) => bounded,
            Err(_) => {
                return Err(DispatchError::Module(Error::InvalidStatus));
            },
        };
        proof {
            lemma_byte_models(tx_bv@);
            lemma_byte_models(policy_bv@);
            lemma_byte_models(asset_bv@);
        }
        let cref = CardanoStakeReference {
            tx_hash: tx_bv,
            output_index,
            policy_id: policy_bv,
            asset_name: asset_bv,
        };
        assert(cref.model() == reference);
        self.cardano_references.insert(certificate_nonce, cref);
        record.status = OperatorStatus::StakeConfirmed;
        self.operator_registry.insert(who, record);
        self.events.push(Event::StakeConfirmed { operator: who, nonce: certificate_nonce });
        assert(self@ =~= stake_confirmed(old(self)@, who, certificate_nonce, reference));
        Ok(())
    }

    /// The governance lets an operator with a confirmed stake take part.
    pub fn authorize_node(&mut self, governance: bool, operator: AccountId) -> (r: Result<
        (),
        DispatchError<Error>,
    >)
        ensures
            final(self)@ == applied(
                old(self)@,
                CallModel::AuthorizeNode { governance, operator },
            ),
            ({
                let refusal = governance_refusal(
                    old(self)@,
                    governance,
                    operator,
                    OperatorStatus::StakeConfirmed,
                );
                &&& r == outcome(refusal)
                &&& final(self)@ == if refusal is Some {
                    old(self)@
                } else {
                    moved(
                        old(self)@,
                        operator,
                        OperatorStatus::Active,
                        Event::NodeAuthorized { operator },
                    )
                }
            }),
    {
        if !governance {
            return Err(DispatchError::Module(Error::NotAuthorized));
        }
        let mut record = match self.operator_registry.get(&operator) {
            Some(record) => record,
            None => {
                return Err(DispatchError::Module(Error::NotRegistered));
            },
        };
        if record.status != OperatorStatus::StakeConfirmed {
            return Err(DispatchError::Module(Error::InvalidStatus));
        }
        record.status = OperatorStatus::Active;
        self.operator_registry.insert(operator, record);
        self.events.push(Event::NodeAuthorized { operator });
        assert(self@ =~= moved(
            old(self)@,
            operator,
            OperatorStatus::Active,
            Event::NodeAuthorized { operator },
        ));
        Ok(())
    }

    /// An active operator asks to retire.
    pub fn request_retire(&mut self, origin: Origin) -> (r: Result<(), DispatchError<Error>>)
        ensures
            final(self)@ == applied(
                old(self)@,
                CallModel::RequestRetire { origin },
            ),
            r == outcome(retire_refusal(old(self)@, origin)),
            final(self)@ == if retire_refusal(old(self)@, origin) is Some {
                old(self)@
            } else {
                moved(
                    old(self)@,
                    origin->Signed_0,
                    OperatorStatus::PendingRetire,
                    Event::RetireRequested { operator: origin->Signed_0 },
                )
            },
    {
        let who = match origin {
            Origin::Signed(who) => who,
            _ => {
                return Err(DispatchError::BadOrigin);
            },
        };
        let mut record = match self.operator_registry.get(&who) {
            Some(record) => record,
            None => {
                return Err(DispatchError::Module(Error::NotRegistered));
            },
        };
        if record.status != OperatorStatus::Active {
            return Err(DispatchError::Module(Error::InvalidStatus));
        }
        record.status = OperatorStatus::PendingRetire;
        self.operator_registry.insert(who, record);
        self.events.push(Event::RetireRequested { operator: who });
        assert(self@ =~= moved(
            old(self)@,
            who,
            OperatorStatus::PendingRetire,
            Event::RetireRequested { operator: who },
        ));
        Ok(())
    }

    /// The governance lets an operator retire and certifies it.
    pub fn authorize_retire(
        &mut self,
        governance: bool,
        operator: AccountId,
        certificate_nonce: u64,
        lock_until_unix_ms: u64,
    ) -> (r: Result<(), DispatchError<Error>>)
        ensures
            final(self)@ == applied(
                old(self)@,
                CallModel::AuthorizeRetire {
                    governance,
                    operator,
                    nonce: certificate_nonce,
                    lock_until: lock_until_unix_ms,
                },
            ),
            ({
                let refusal = authorize_retire_refusal(
                    old(self)@,
                    governance,
                    operator,
                    certificate_nonce,
                );
                &&& r == outcome(refusal)
                &&& final(self)@ == if refusal is Some {
                    old(self)@
                } else {
                    certified(
                        old(self)@,
                        operator,
                        retire_certificate(operator, certificate_nonce, lock_until_unix_ms),
                        OperatorStatus::Retired,
                        Event::RetireAuthorized { operator, nonce: certificate_nonce },
                    )
                }
            }),
    {
        if !governance {
            return Err(DispatchError::Module(Error::NotAuthorized));
        }
        let mut record = match self.operator_registry.get(&operator) {
            Some(record) => record,
            None => {
                return Err(DispatchError::Module(Error::NotRegistered));
            },
        };
        if record.status != OperatorStatus::PendingRetire {
            return Err(DispatchError::Module(Error::InvalidStatus));
        }
        if self.certificates.contains_key(&certificate_nonce) {
            return Err(DispatchError::Module(Error::InvalidStatus));
        }
        let op_bounded = match BoundedVec::try_from(encode_account(&operator)) {
            Ok(bounded) => bounded,
            Err(_) => {
                return Err(DispatchError::Module(Error::InvalidStatus));
            },
        };
        let cert = StakingCertificate {
            operator_account: op_bounded,
            cardano_stake_key_hash: BoundedVec::new(),
            sidechain_pubkey: BoundedVec::new(),
            stake_amount: 0,
            expiry: lock_until_unix_ms,
            nonce: certificate_nonce,
        };
        proof {
            lemma_byte_models(cert.operator_account@);
            lemma_byte_models(cert.cardano_stake_key_hash@);
            lemma_byte_models(cert.sidechain_pubkey@);
        }
        let ghost model = retire_certificate(operator, certificate_nonce, lock_until_unix_ms);
        assert(cert.model() =~= model);
        record.status = OperatorStatus::Retired;
        match record.certificate_nonces.try_push(certificate_nonce) {
            Ok(()) => {},
            Err(_) => {
                return Err(DispatchError::Module(Error::InvalidStatus));
            },
        }
        self.certificates.insert(certificate_nonce, cert);
        self.operator_registry.insert(operator, record);
        self.events.push(Event::RetireAuthorized { operator, nonce: certificate_nonce });
        assert(self@ =~= certified(
            old(self)@,
            operator,
            model,
            OperatorStatus::Retired,
            Event::RetireAuthorized { operator, nonce: certificate_nonce },
        ));
        Ok(())
    }
}

// ---------------------------------------------------------------------------------------------
// Slashing

/// Why a slash may not be proposed.
pub open spec fn slash_request_refusal(
    s: PalletModel,
    origin: Origin,
    operator: AccountId,
    reason: Seq<u8>,
) -> Option<DispatchError<Error>> {
    match origin {
        Origin::Signed(_) => if !s.operator_registry.contains_key(operator) {
            refused(Error::NotRegistered)
        } else if reason.len() > 256 {
            refused(Error::InvalidStatus)
        } else {
            None
        },
        _ => Some(DispatchError::BadOrigin),
    }
}

/// The id after `id`, which wraps around.
pub open spec fn next_id(id: u64) -> u64 {
    if id == u64::MAX {
        0
    } else {
        (id + 1) as u64
    }
}

pub open spec fn slash_proposed(
    s: PalletModel,
    who: AccountId,
    operator: AccountId,
    amount: u128,
    reason: Seq<u8>,
) -> PalletModel {
    let id = s.next_slash_proposal_id;
    PalletModel {
        slash_proposals: s.slash_proposals.insert(
            id,
            ProposalModel {
                proposer: who@,
                target_operator: operator@,
                amount,
                reason,
                approvals: 0,
                rejections: 0,
            },
        ),
        next_slash_proposal_id: next_id(id),
        events: s.events.push(Event::SlashProposed { proposal_id: id, operator }),
        ..s
    }
}

pub open spec fn one_more(count: u32) -> u32 {
    if count == u32::MAX {
        count
    } else {
        (count + 1) as u32
    }
}

/// Why a vote on a proposal is refused: only admins vote, and only once.
pub open spec fn vote_refusal(s: PalletModel, origin: Origin, id: u64) -> Option<
    DispatchError<Error>,
> {
    match origin {
        Origin::Signed(who) => if !(s.governance_authority matches Some(config)
            && config.admins.contains(who)) {
            refused(Error::NotGovernanceAdmin)
        } else if !s.slash_proposals.contains_key(id) {
            refused(Error::ProposalNotFound)
        } else if s.slash_votes.contains_key((id, who)) {
            refused(Error::AlreadyVoted)
        } else {
            None
        },
        _ => Some(DispatchError::BadOrigin),
    }
}

/// The approval of a proposal decides it.
pub open spec fn approval_decides(s: PalletModel, id: u64) -> bool {
    one_more(s.slash_proposals[id].approvals) >= s.governance_authority->0.threshold
}

/// The rejection of a proposal decides it.
pub open spec fn rejection_decides(s: PalletModel, id: u64) -> bool {
    one_more(s.slash_proposals[id].rejections) >= s.governance_authority->0.threshold
}

/// Why an approval is refused: it is no valid vote, or it decides a proposal whose target is no
/// account.
pub open spec fn approve_refusal(s: PalletModel, origin: Origin, id: u64) -> Option<
    DispatchError<Error>,
> {
    if vote_refusal(s, origin, id) is Some {
        vote_refusal(s, origin, id)
    } else if approval_decides(s, id) && s.slash_proposals[id].target_operator.len() < 32 {
        refused(Error::InvalidStatus)
    } else {
        None
    }
}

pub open spec fn slash_approval(s: PalletModel, who: AccountId, id: u64) -> PalletModel {
    let proposal = s.slash_proposals[id];
    let voted = PalletModel { slash_votes: s.slash_votes.insert((id, who), 1), ..s };
    if approval_decides(s, id) {
        PalletModel {
            slash_proposals: s.slash_proposals.remove(id),
            events: s.events.push(
                Event::SlashApproved {
                    proposal_id: id,
                    operator: account_of(proposal.target_operator),
                    amount: proposal.amount,
                },
            ),
            ..voted
        }
    } else {
        PalletModel {
            slash_proposals: s.slash_proposals.insert(
                id,
                ProposalModel { approvals: one_more(proposal.approvals), ..proposal },
            ),
            ..voted
        }
    }
}

pub open spec fn slash_rejection(s: PalletModel, who: AccountId, id: u64) -> PalletModel {
    let proposal = s.slash_proposals[id];
    let voted = PalletModel { slash_votes: s.slash_votes.insert((id, who), 2), ..s };
    if rejection_decides(s, id) {
        PalletModel {
            slash_proposals: s.slash_proposals.remove(id),
            events: s.events.push(Event::SlashRejected { proposal_id: id }),
            ..voted
        }
    } else {
        PalletModel {
            slash_proposals: s.slash_proposals.insert(
                id,
                ProposalModel { rejections: one_more(proposal.rejections), ..proposal },
            ),
            ..voted
        }
    }
}

fn add_one(count: u32) -> (r: u32)
    ensures
        r == one_more(count),
{
    if count == u32::MAX {
        count
    } else {
        count + 1
    }
}

impl Pallet {
    /// Proposes to slash an operator.
    pub fn request_slash(
        &mut self,
        origin: Origin,
        operator: AccountId,
        amount: u128,
        reason: Vec<u8>,
    ) -> (r: Result<(), DispatchError<Error>>)
        ensures
            final(self)@ == applied(
                old(self)@,
                CallModel::RequestSlash { origin, operator, amount, reason: reason@ },
            ),
            ({
                let refusal = slash_request_refusal(old(self)@, origin, operator, reason@);
                &&& r == outcome(refusal)
                &&& final(self)@ == if refusal is Some {
                    old(self)@
                } else {
                    slash_proposed(
                        old(self)@,
                        origin->Signed_0,
                        operator,
                        amount,
                        reason@,
                    )
                }
            }),
    {
        let ghost text = reason@;
        let who = match origin {
            Origin::Signed(who) => who,
            _ => {
                return Err(DispatchError::BadOrigin);
            },
        };
        if !self.operator_registry.contains_key(&operator) {
            return Err(DispatchError::Module(Error::NotRegistered));
        }
        let pid: u64 = self.next_slash_proposal_id;
        let proposer_bv = match BoundedVec::try_from(encode_account(&who)) {
            Ok(bounded) => bounded,
            Err(_) => {
                return Err(DispatchError::Module(Error::InvalidStatus));
            },
        };
        let operator_bv = match BoundedVec::try_from(encode_account(&operator)) {
            Ok(bounded) => bounded,
            Err(_) => {
                return Err(DispatchError::Module(Error::InvalidStatus));
            },
        };
        let reason_bv = match BoundedVec::try_from(reason) {
            Ok(bounded) => bounded,
            Err(_) => {
                return Err(DispatchError::Module(Error::InvalidStatus));
            },
        };
        proof {
            lemma_byte_models(proposer_bv@);
            lemma_byte_models(operator_bv@);
            lemma_byte_models(reason_bv@);
        }
        let proposal = SlashProposal {
            proposer: proposer_bv,
            target_operator: operator_bv,
            amount,
            reason: reason_bv,
            approvals: 0,
            rejections: 0,
        };
        self.slash_proposals.insert(pid, proposal);
        self.next_slash_proposal_id = if pid == u64::MAX {
            0
        } else {
            pid + 1
        };
        self.events.push(Event::SlashProposed { proposal_id: pid, operator });
        assert(self@ =~= slash_proposed(old(self)@, who, operator, amount, text));
        Ok(())
    }

    /// An admin approves a slash proposal.
    pub fn approve_slash(&mut self, origin: Origin, proposal_id: u64) -> (r: Result<
        (),
        DispatchError<Error>,
    >)
        ensures
            final(self)@ == applied(
                old(self)@,
                CallModel::ApproveSlash { origin, id: proposal_id },
            ),
            r == outcome(approve_refusal(old(self)@, origin, proposal_id)),
            final(self)@ == if approve_refusal(old(self)@, origin, proposal_id) is Some {
                old(self)@
            } else {
                slash_approval(old(self)@, origin->Signed_0, proposal_id)
            },
    {
        let who = match origin {
            Origin::Signed(who) => who,
            _ => {
                return Err(DispatchError::BadOrigin);
            },
        };
        let threshold: u32 = match &self.governance_authority {
            Some(gconf) => {
                if !contains_account(&gconf.admins, &who) {
                    return Err(DispatchError::Module(Error::NotGovernanceAdmin));
                }
                gconf.threshold
            },
            None => {
                return Err(DispatchError::Module(Error::NotGovernanceAdmin));
            },
        };
        let mut p = match self.slash_proposals.get(&proposal_id) {
            Some(p) => p,
            None => {
                return Err(DispatchError::Module(Error::ProposalNotFound));
            },
        };
        if self.slash_votes.contains_key(&(proposal_id, who)) {
            return Err(DispatchError::Module(Error::AlreadyVoted));
        }
        p.approvals = add_one(p.approvals);
        if p.approvals >= threshold {
            proof {
                lemma_byte_models(p.target_operator@);
            }
            let op_account = match decode_account(p.target_operator.as_vec()) {
                Some(account) => account,
                None => {
                    return Err(DispatchError::Module(Error::InvalidStatus));
                },
            };
            self.events.push(
                Event::SlashApproved { proposal_id, operator: op_account, amount: p.amount },
            );
            self.slash_proposals.remove(&proposal_id);
        } else {
            self.slash_proposals.insert(proposal_id, p);
        }
        self.slash_votes.insert((proposal_id, who), 1);
        assert(self@ =~= slash_approval(old(self)@, who, proposal_id));
        Ok(())
    }

    /// An admin rejects a slash proposal.
    pub fn reject_slash(&mut self, origin: Origin, proposal_id: u64) -> (r: Result<
        (),
        DispatchError<Error>,
    >)
        ensures
            final(self)@ == applied(
                old(self)@,
                CallModel::RejectSlash { origin, id: proposal_id },
            ),
            r == outcome(vote_refusal(old(self)@, origin, proposal_id)),
            final(self)@ == if vote_refusal(old(self)@, origin, proposal_id) is Some {
                old(self)@
            } else {
                slash_rejection(old(self)@, origin->Signed_0, proposal_id)
            },
    {
        let who = match origin {
            Origin::Signed(who) => who,
            _ => {
                return Err(DispatchError::BadOrigin);
            },
        };
        let threshold: u32 = match &self.governance_authority {
            Some(gconf) => {
                if !contains_account(&gconf.admins, &who) {
                    return Err(DispatchError::Module(Error::NotGovernanceAdmin));
                }
                gconf.threshold
            },
            None => {
                return Err(DispatchError::Module(Error::NotGovernanceAdmin));
            },
        };
        let mut p = match self.slash_proposals.get(&proposal_id) {
            Some(p) => p,
            None => {
                return Err(DispatchError::Module(Error::ProposalNotFound));
            },
        };
        if self.slash_votes.contains_key(&(proposal_id, who)) {
            return Err(DispatchError::Module(Error::AlreadyVoted));
        }
        p.rejections = add_one(p.rejections);
        if p.rejections >= threshold {
            self.events.push(Event::SlashRejected { proposal_id });
            self.slash_proposals.remove(&proposal_id);
        } else {
            self.slash_proposals.insert(proposal_id, p);
        }
        self.slash_votes.insert((proposal_id, who), 2);
        assert(self@ =~= slash_rejection(old(self)@, who, proposal_id));
        Ok(())
    }
}

// ---------------------------------------------------------------------------------------------
// Governance

pub open spec fn is_active(s: PalletModel, operator: AccountId) -> bool {
    s.operator_registry.contains_key(operator) && s.operator_registry[operator].status
        == OperatorStatus::Active
}

/// The number of active operators in a listing of the registry.
pub open spec fn active_entries(listed: Seq<(AccountId, OperatorModel)>) -> nat {
    listed.filter(
        |entry: (AccountId, OperatorModel)| entry.1.status == OperatorStatus::Active,
    ).len()
}

/// The number of active operators.
pub open spec fn active_operators(s: PalletModel) -> nat {
    active_entries(listing::<AccountId, OperatorModel>(s.operator_registry))
}

/// There are as many active operators as end the bootstrap phase.
pub open spec fn bootstrapped(s: PalletModel) -> bool {
    active_operators(s) >= s.bootstrap_operator_count
}

pub open spec fn some_active(s: PalletModel, admins: Seq<AccountId>) -> bool {
    exists|i: int| 0 <= i < admins.len() && is_active(s, #[trigger] admins[i])
}

/// Past the bootstrap phase, an active operator must be among the admins.
pub open spec fn governance_update_refusal(
    s: PalletModel,
    governance: bool,
    admins: Seq<AccountId>,
) -> Option<DispatchError<Error>> {
    if !governance {
        refused(Error::NotAuthorized)
    } else if bootstrapped(s) && !some_active(s, admins) {
        refused(Error::InsufficientOperatorInclusion)
    } else {
        None
    }
}

pub open spec fn governance_updated(
    s: PalletModel,
    admins: Seq<AccountId>,
    threshold: u32,
) -> PalletModel {
    PalletModel {
        governance_authority: Some(GovernanceModel { admins, threshold }),
        events: s.events.push(Event::GovernanceAuthorityUpdated),
        ..s
    }
}

pub proof fn lemma_active_entries(listed: Seq<(AccountId, OperatorModel)>)
    ensures
        active_entries(listed) == if listed.len() == 0 {
            0
        } else if listed.last().1.status == OperatorStatus::Active {
            active_entries(listed.drop_last()) + 1
        } else {
            active_entries(listed.drop_last())
        },
{
    reveal(Seq::filter);
}

impl Pallet {
    fn count_active(&self) -> (n: u32)
        ensures
            n == if active_operators(self@) <= u32::MAX {
                active_operators(self@)
            } else {
                u32::MAX as nat
            },
    {
        let listed = self.operator_registry.iter();
        let ghost all = listed.model();
        let mut active_count: u32 = 0;
        proof {
            lemma_active_entries(all.take(0));
        }
        for i in 0..listed.len()
            invariant
                all == listed.model(),
                active_count == if active_entries(all.take(i as int)) <= u32::MAX {
                    active_entries(all.take(i as int))
                } else {
                    u32::MAX as nat
                },
        {
            proof {
                lemma_active_entries(all.take(i + 1));
                assert(all.take(i + 1).drop_last() =~= all.take(i as int));
                assert(all.take(i + 1).last() == listed@[i as int].model());
            }
            if listed[i].1.status == OperatorStatus::Active {
                active_count = add_one(active_count);
            }
        }
        assert(all.take(all.len() as int) =~= all);
        active_count
    }

    /// The governance replaces the admins.
    pub fn update_governance_authority(
        &mut self,
        governance: bool,
        admins: BoundedVec<AccountId, 16>,
        threshold: u32,
    ) -> (r: Result<(), DispatchError<Error>>)
        ensures
            final(self)@ == applied(
                old(self)@,
                CallModel::UpdateGovernance { governance, admins: admins@, threshold },
            ),
            r == outcome(governance_update_refusal(old(self)@, governance, admins@)),
            final(self)@ == if governance_update_refusal(
                old(self)@,
                governance,
                admins@,
            ) is Some {
                old(self)@
            } else {
                governance_updated(old(self)@, admins@, threshold)
            },
    {
        if !governance {
            return Err(DispatchError::Module(Error::NotAuthorized));
        }
        let active_count: u32 = self.count_active();
        if active_count >= self.bootstrap_operator_count {
            let mut found = false;
            let n: usize = admins.len();
            for i in 0..n
                invariant
                    n == admins@.len(),
                    found == (exists|j: int| 0 <= j < i && is_active(self@, #[trigger] admins@[j])),
            {
                let admin = admins.at(i);
                if let Some(record) = self.operator_registry.get(admin) {
                    if record.status == OperatorStatus::Active {
                        assert(is_active(self@, admins@[i as int]));
                        found = true;
                    }
                }
            }
            if !found {
                return Err(DispatchError::Module(Error::InsufficientOperatorInclusion));
            }
            assert(some_active(self@, admins@));
        }
        let ghost listed = admins@;
        self.governance_authority = Some(GovernanceConfig { admins, threshold });
        self.events.push(Event::GovernanceAuthorityUpdated);
        assert(self@ =~= governance_updated(old(self)@, listed, threshold));
        Ok(())
    }
}

// ---------------------------------------------------------------------------------------------
// Genesis

#[derive(Debug, PartialEq, Eq)]
pub struct GenesisConfig {
    pub initial_admins: BoundedVec<AccountId, 16>,
    pub initial_threshold: u32,
    pub bootstrap_operator_count: u32,
}

impl Default for GenesisConfig {
    fn default() -> (config: GenesisConfig)
        ensures
            config.initial_admins@.len() == 0,
            config.initial_threshold == 1,
            config.bootstrap_operator_count == 0,
    {
        GenesisConfig {
            initial_admins: BoundedVec::new(),
            initial_threshold: 1,
            bootstrap_operator_count: 0,
        }
    }
}

impl GenesisConfig {
    /// Writes the configuration to storage.
    pub fn build(&self, pallet: &mut Pallet)
        ensures
            final(pallet)@ == (PalletModel {
                governance_authority: Some(
                    GovernanceModel {
                        admins: self.initial_admins@,
                        threshold: self.initial_threshold,
                    },
                ),
                bootstrap_operator_count: self.bootstrap_operator_count,
                ..old(pallet)@
            }),
    {
        let gconf = GovernanceConfig {
            admins: duplicate_accounts(&self.initial_admins),
            threshold: self.initial_threshold,
        };
        pallet.governance_authority = Some(gconf);
        pallet.bootstrap_operator_count = self.bootstrap_operator_count;
    }
}

} // verus!
