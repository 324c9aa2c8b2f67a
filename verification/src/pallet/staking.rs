//! Staking and retirement of oracle nodes.
use crate::bounded::{truncated, BoundedVec};
use crate::model::{same_array, Model};
use crate::pallet::laws::{applied, CallModel};
use crate::pallet::state::{Error, Event, EventModel, Pallet, PalletModel};
use crate::pallet::types::{
    IssuedStakingCert, NodeModel, NodeStakingInfo, OracleNodeStakingState, StakingCertModel,
    StakingTerms, TermsModel,
};
use crate::primitives::{
    count_items, outcome, wrap32, AccountId, AdminSig, BlockNumber, DispatchError, Origin,
};
use crate::sorted_map::{group, listing, without_group};
use vstd::prelude::*;

verus! {

pub open spec fn refused(error: Error) -> Option<DispatchError<Error>> {
    Some(DispatchError::Module(error))
}

/// The number of admin signatures that a certificate needs.
pub open spec fn admin_threshold(s: PalletModel) -> u32 {
    match s.min_nodes_for_trusted_aggregation {
        Some(nodes) => nodes,
        None => 2,
    }
}

/// The signatures for a node, in the order of the signers.
pub open spec fn signatures_for(
    sigs: Map<(AccountId, AccountId), AdminSig>,
    node: AccountId,
) -> Seq<AdminSig> {
    listing::<AccountId, AdminSig>(group(sigs, node)).map_values(
        |entry: (AccountId, AdminSig)| entry.1,
    )
}

pub open spec fn with_state(info: NodeModel, state: OracleNodeStakingState) -> NodeModel {
    NodeModel { state, ..info }
}

impl Pallet {
    pub(crate) fn admin_threshold(&self) -> (n: u32)
        ensures
            n == admin_threshold(self@),
    {
        match self.min_nodes_for_trusted_aggregation {
            Some(nodes) => nodes,
            None => 2,
        }
    }
}

/// Takes the signatures out of a listing, as many as a certificate holds.
pub(crate) fn collect_sigs(listed: &Vec<(AccountId, AdminSig)>) -> (r: BoundedVec<AdminSig, 32>)
    ensures
        r@ == truncated(
            listed.model().map_values(|entry: (AccountId, AdminSig)| entry.1),
            32,
        ),
{
    let ghost sigs = listed.model().map_values(|entry: (AccountId, AdminSig)| entry.1);
    let mut collected: BoundedVec<AdminSig, 32> = BoundedVec::new();
    assert(collected@ =~= truncated(sigs.take(0), 32));
    for i in 0..listed.len()
        invariant
            sigs == listed.model().map_values(|entry: (AccountId, AdminSig)| entry.1),
            collected@ == truncated(sigs.take(i as int), 32),
    {
        let sig_pair: AdminSig = listed[i].1;
        assert(listed.model()[i as int] == listed@[i as int].model());
        assert(sigs[i as int] == sig_pair);
        let _full = collected.try_push(sig_pair);
        assert(sigs.take(i + 1) =~= sigs.take(i as int).push(sig_pair));
        assert(collected@ =~= truncated(sigs.take(i + 1), 32));
    }
    assert(sigs.take(listed@.len() as int) =~= sigs);
    collected
}

// ---------------------------------------------------------------------------------------------
// Staking

/// Why an admin may not sign the staking of a node.
pub open spec fn staking_refusal(
    s: PalletModel,
    origin: Origin,
    node: AccountId,
    terms: TermsModel,
) -> Option<DispatchError<Error>> {
    match origin {
        Origin::Signed(who) => if who == node {
            refused(Error::CannotVoteForSelf)
        } else if !s.authorized_oracle_nodes.contains_key(node) {
            refused(Error::UnauthorizedNode)
        } else if s.authorized_oracle_nodes[node].state != OracleNodeStakingState::Inactive {
            refused(Error::InvalidNodeState)
        } else if s.staking_approval_info.contains_key(node) && s.staking_approval_info[node]
            != terms {
            refused(Error::ProposalMismatch)
        } else if s.staking_approval_sigs.contains_key((node, who)) {
            refused(Error::AlreadySigned)
        } else {
            None
        },
        _ => Some(DispatchError::BadOrigin),
    }
}

/// The storage after an admin signed the staking of a node. Once enough admins have signed, the
/// certificate is issued and the pending approval cleared.
pub open spec fn staking_signed(
    s: PalletModel,
    who: AccountId,
    when: BlockNumber,
    node: AccountId,
    terms: TermsModel,
    sig: AdminSig,
) -> PalletModel {
    let sigs = s.staking_approval_sigs.insert((node, who), sig);
    let collected = signatures_for(sigs, node);
    if wrap32(collected.len()) >= admin_threshold(s) {
        let certificate = StakingCertModel { terms, sigs: truncated(collected, 32) };
        let info = NodeModel {
            stake_amount: terms.stake_amount,
            state: OracleNodeStakingState::StakingApproved,
            cardano_pkh_admin: terms.cardano_pkh_admin,
            cardano_pkh_aggregation: terms.cardano_pkh_aggregation,
            ..s.authorized_oracle_nodes[node]
        };
        PalletModel {
            authorized_oracle_nodes: s.authorized_oracle_nodes.insert(node, info),
            staking_approval_info: s.staking_approval_info.remove(node),
            staking_approval_sigs: without_group(sigs, node),
            issued_staking_certs: s.issued_staking_certs.insert(node, certificate),
            events: s.events.push(
                EventModel::StakingCertificateIssued { node, certificate, when },
            ),
            ..s
        }
    } else {
        PalletModel {
            staking_approval_info: s.staking_approval_info.insert(node, terms),
            staking_approval_sigs: sigs,
            events: s.events.push(EventModel::StakingApprovalSigned { node, signer: who, when }),
            ..s
        }
    }
}

/// The call is signed by a node in the given state.
pub open spec fn node_call_refusal(
    s: PalletModel,
    origin: Origin,
    state: OracleNodeStakingState,
) -> Option<DispatchError<Error>> {
    match origin {
        Origin::Signed(who) => if !s.authorized_oracle_nodes.contains_key(who) {
            refused(Error::UnauthorizedNode)
        } else if s.authorized_oracle_nodes[who].state != state {
            refused(Error::InvalidNodeState)
        } else {
            None
        },
        _ => Some(DispatchError::BadOrigin),
    }
}

/// The storage after a node confirmed its stake on Cardano.
pub open spec fn stake_confirmed(
    s: PalletModel,
    who: AccountId,
    when: BlockNumber,
    tx_hash: [u8; 32],
) -> PalletModel {
    let info = s.authorized_oracle_nodes[who];
    PalletModel {
        authorized_oracle_nodes: s.authorized_oracle_nodes.insert(
            who,
            with_state(info, OracleNodeStakingState::ActiveStake),
        ),
        issued_staking_certs: s.issued_staking_certs.remove(who),
        events: s.events.push(
            EventModel::StakingConfirmed {
                node: who,
                tx_hash,
                stake_amount: info.stake_amount,
                when,
            },
        ),
        ..s
    }
}

/// The storage after a node asked to retire.
pub open spec fn retire_requested(s: PalletModel, who: AccountId, when: BlockNumber) -> PalletModel {
    PalletModel {
        authorized_oracle_nodes: s.authorized_oracle_nodes.insert(
            who,
            with_state(s.authorized_oracle_nodes[who], OracleNodeStakingState::RetireStake),
        ),
        events: s.events.push(EventModel::RetireRequested { node: who, when }),
        ..s
    }
}

/// Only the root may issue a retire certificate, and only for an authorized node.
pub open spec fn retire_certificate_refusal(
    s: PalletModel,
    origin: Origin,
    node: AccountId,
) -> Option<DispatchError<Error>> {
    if origin != Origin::Root {
        Some(DispatchError::BadOrigin)
    } else if !s.authorized_oracle_nodes.contains_key(node) {
        refused(Error::UnauthorizedNode)
    } else {
        None
    }
}

impl Pallet {
    /// An admin signs the staking of a node.
    pub fn generate_staking_certificate(
        &mut self,
        origin: Origin,
        when: BlockNumber,
        node_account: AccountId,
        stake_amount: u64,
        lock_until_block: BlockNumber,
        cardano_pkh_admin: BoundedVec<u8, 32>,
        cardano_pkh_aggregation: BoundedVec<u8, 32>,
        admin_pubkey: [u8; 32],
        admin_sig: [u8; 64],
    ) -> (r: Result<(), DispatchError<Error>>)
        ensures
            final(self)@ == applied(
                old(self)@,
                CallModel::SignStaking {
                    origin,
                    when,
                    node: node_account,
                    terms: TermsModel {
                        stake_amount,
                        lock_until: lock_until_block,
                        cardano_pkh_admin: cardano_pkh_admin.model(),
                        cardano_pkh_aggregation: cardano_pkh_aggregation.model(),
                    },
                    sig: (admin_pubkey, admin_sig),
                },
            ),
            ({
                let terms = TermsModel {
                    stake_amount,
                    lock_until: lock_until_block,
                    cardano_pkh_admin: cardano_pkh_admin.model(),
                    cardano_pkh_aggregation: cardano_pkh_aggregation.model(),
                };
                let refusal = staking_refusal(old(self)@, origin, node_account, terms);
                &&& r == outcome(refusal)
                &&& final(self)@ == if refusal is Some {
                    old(self)@
                } else {
                    staking_signed(
                        old(self)@,
                        origin->Signed_0,
                        when,
                        node_account,
                        terms,
                        (admin_pubkey, admin_sig),
                    )
                }
            }),
    {
        let who = match origin {
            Origin::Signed(who) => who,
            _ => {
                return Err(DispatchError::BadOrigin);
            },
        };
        if same_array(&who, &node_account) {
            return Err(DispatchError::Module(Error::CannotVoteForSelf));
        }
        let info = match self.authorized_oracle_nodes.get(&node_account) {
            Some(info) => info,
            None => {
                return Err(DispatchError::Module(Error::UnauthorizedNode));
            },
        };
        if info.state != OracleNodeStakingState::Inactive {
            return Err(DispatchError::Module(Error::InvalidNodeState));
        }
        let terms = StakingTerms {
            stake_amount,
            lock_until: lock_until_block,
            cardano_pkh_admin,
            cardano_pkh_aggregation,
        };
        let pending = self.staking_approval_info.get(&node_account);
        if let Some(existing) = &pending {
            if !existing.same(&terms) {
                return Err(DispatchError::Module(Error::ProposalMismatch));
            }
        }
        if self.staking_approval_sigs.contains_key(&(node_account, who)) {
            return Err(DispatchError::Module(Error::AlreadySigned));
        }
        let ghost start = self@;
        let ghost sig = (admin_pubkey, admin_sig);
        self.staking_approval_sigs.insert((node_account, who), (admin_pubkey, admin_sig));
        let listed = self.staking_approval_sigs.iter_prefix(&node_account);
        assert(signatures_for(self@.staking_approval_sigs, node_account).len() == listed@.len());
        if count_items(listed.len()) >= self.admin_threshold() {
            let collected_sigs = collect_sigs(&listed);
            let approved = NodeStakingInfo {
                stake_amount: terms.stake_amount,
                state: OracleNodeStakingState::StakingApproved,
                stake_activated_at: info.stake_activated_at,
                cardano_pkh_admin: terms.cardano_pkh_admin.duplicate(),
                cardano_pkh_aggregation: terms.cardano_pkh_aggregation.duplicate(),
            };
            self.authorized_oracle_nodes.insert(node_account, approved);
            self.staking_approval_info.remove(&node_account);
            self.staking_approval_sigs.clear_prefix(&node_account);
            let certificate = IssuedStakingCert { terms, sigs: collected_sigs };
            self.issued_staking_certs.insert(node_account, certificate.duplicate());
            self.deposit_event(
                Event::StakingCertificateIssued { node: node_account, certificate, when },
            );
        } else {
            if pending.is_none() {
                self.staking_approval_info.insert(node_account, terms.duplicate());
            }
            assert(self@.staking_approval_info =~= start.staking_approval_info.insert(
                node_account,
                terms.model(),
            ));
            self.deposit_event(
                Event::StakingApprovalSigned { node: node_account, signer: who, when },
            );
        }
        assert(self@ =~= staking_signed(start, who, when, node_account, terms.model(), sig));
        Ok(())
    }

    /// The node confirms on-chain that its stake was placed on Cardano.
    pub fn confirm_cardano_stake(
        &mut self,
        origin: Origin,
        when: BlockNumber,
        tx_hash: [u8; 32],
    ) -> (r: Result<(), DispatchError<Error>>)
        ensures
            final(self)@ == applied(
                old(self)@,
                CallModel::ConfirmStake { origin, when, tx_hash },
            ),
            ({
                let refusal = node_call_refusal(
                    old(self)@,
                    origin,
                    OracleNodeStakingState::StakingApproved,
                );
                &&& r == outcome(refusal)
                &&& final(self)@ == if refusal is Some {
                    old(self)@
                } else {
                    stake_confirmed(old(self)@, origin->Signed_0, when, tx_hash)
                }
            }),
    {
        let who = match origin {
            Origin::Signed(who) => who,
            _ => {
                return Err(DispatchError::BadOrigin);
            },
        };
        let mut info = match self.authorized_oracle_nodes.get(&who) {
            Some(info) => info,
            None => {
                return Err(DispatchError::Module(Error::UnauthorizedNode));
            },
        };
        if info.state != OracleNodeStakingState::StakingApproved {
            return Err(DispatchError::Module(Error::InvalidNodeState));
        }
        let stake_amount: u64 = info.stake_amount;
        info.state = OracleNodeStakingState::ActiveStake;
        self.authorized_oracle_nodes.insert(who, info);
        self.issued_staking_certs.remove(&who);
        self.deposit_event(Event::StakingConfirmed { node: who, tx_hash, stake_amount, when });
        assert(self@ =~= stake_confirmed(old(self)@, who, when, tx_hash));
        Ok(())
    }

    /// An active node asks to retire.
    pub fn request_retire(&mut self, origin: Origin, when: BlockNumber) -> (r: Result<
        (),
        DispatchError<Error>,
    >)
        ensures
            final(self)@ == applied(
                old(self)@,
                CallModel::RequestRetire { origin, when },
            ),
            ({
                let refusal = node_call_refusal(
                    old(self)@,
                    origin,
                    OracleNodeStakingState::ActiveStake,
                );
                &&& r == outcome(refusal)
                &&& final(self)@ == if refusal is Some {
                    old(self)@
                } else {
                    retire_requested(old(self)@, origin->Signed_0, when)
                }
            }),
    {
        let who = match origin {
            Origin::Signed(who) => who,
            _ => {
                return Err(DispatchError::BadOrigin);
            },
        };
        let mut info = match self.authorized_oracle_nodes.get(&who) {
            Some(info) => info,
            None => {
                return Err(DispatchError::Module(Error::UnauthorizedNode));
            },
        };
        if info.state != OracleNodeStakingState::ActiveStake {
            return Err(DispatchError::Module(Error::InvalidNodeState));
        }
        info.state = OracleNodeStakingState::RetireStake;
        self.authorized_oracle_nodes.insert(who, info);
        self.deposit_event(Event::RetireRequested { node: who, when });
        assert(self@ =~= retire_requested(old(self)@, who, when));
        Ok(())
    }

    /// The root issues a retire certificate.
    pub fn generate_retire_certificate(
        &mut self,
        origin: Origin,
        when: BlockNumber,
        node_account: AccountId,
        lock_until_block: BlockNumber,
        _expires_at_block: BlockNumber,
    ) -> (r: Result<(), DispatchError<Error>>)
        ensures
            final(self)@ == applied(
                old(self)@,
                CallModel::CertifyRetire {
                    origin,
                    when,
                    node: node_account,
                    lock_until: lock_until_block,
                },
            ),
            ({
                let refusal = retire_certificate_refusal(old(self)@, origin, node_account);
                &&& r == outcome(refusal)
                &&& final(self)@ == if refusal is Some {
                    old(self)@
                } else {
                    PalletModel {
                        events: old(self)@.events.push(
                            EventModel::RetireCertificateIssued {
                                node: node_account,
                                lock_until: lock_until_block,
                                when,
                            },
                        ),
                        ..old(self)@
                    }
                }
            }),
    {
        match origin {
            Origin::Root => {},
            _ => {
                return Err(DispatchError::BadOrigin);
            },
        }
        if !self.authorized_oracle_nodes.contains_key(&node_account) {
            return Err(DispatchError::Module(Error::UnauthorizedNode));
        }
        self.deposit_event(
            Event::RetireCertificateIssued {
                node: node_account,
                lock_until: lock_until_block,
                when,
            },
        );
        Ok(())
    }
}

} // verus!
