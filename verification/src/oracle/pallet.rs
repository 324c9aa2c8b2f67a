//! Prices, signatures and configuration of an oracle whose nodes do not stake.
use crate::bounded::{lemma_byte_models, BoundedVec};
use crate::encoding::cbor::{
    cbor_bytestring, cbor_constr, cbor_uint, joined, lemma_bytestring_read_back,
    lemma_head_read_back, lemma_joined_push, put_begin_array, put_bytes, put_end, put_tag,
};
use crate::encoding::entries::{
    lemma_joined_two, lemma_prices_read_back, lemma_rewards_read_back, lemma_tag_heads,
    prices_cbor, put_amount, put_prices, put_rewards, rewards_cbor, EmptyArray,
};
use crate::encoding::hash::{blake2_256, blake2_256_digest};
use crate::encoding::{CardanoCbor, CborHashable};
use crate::model::Model;
use crate::pallet::calls::{signature_bytes, strip_scheme, with_prices};
use crate::pallet::messages::{lemma_price_models, lemma_reward_models};
use crate::primitives::{outcome, AccountId, BlockNumber, DispatchError, Origin, Signature};
use crate::sorted_map::SortedMap;
use crate::types::config::node::{ada_usd, ada_usd_pair, ConsensusModel, PairModel};
use crate::types::{ChannelId, ConsensusConfiguration, MessagesConfiguration, TradePair};
use vstd::prelude::*;

pub use crate::pallet::types::{AggregationModel, AggregationState};

verus! {

// ---------------------------------------------------------------------------------------------
// Messages

/// This is the aggregated Oracle Message
#[derive(Debug, PartialEq, Eq)]
pub struct OracleMessage {
    /// Channel aka Message Queue ID,
    /// any subscriber can then use this to identify the message they wanted to bridge.
    pub channel_id: ChannelId,
    /// Vec of prices and their respective age (in blocks ago).
    pub prices_and_age: BoundedVec<Option<(u64, u16)>, 64>,
    /// Aggregation timestamp.
    pub timestamp: u64,
    /// Vec of byte arrays for ed25519 public keys with reward multiplier.
    pub rewards: BoundedVec<([u8; 32], u16), 64>,
}

#[verifier::ext_equal]
pub struct OracleMessageModel {
    pub channel_id: Seq<u8>,
    pub prices_and_age: Seq<Option<(u64, u16)>>,
    pub timestamp: u64,
    pub rewards: Seq<([u8; 32], u16)>,
}

impl Model for OracleMessage {
    type M = OracleMessageModel;

    open spec fn model(&self) -> OracleMessageModel {
        OracleMessageModel {
            channel_id: self.channel_id.model(),
            prices_and_age: self.prices_and_age@,
            timestamp: self.timestamp,
            rewards: self.rewards@,
        }
    }

    fn duplicate(&self) -> (copy: OracleMessage) {
        let prices_and_age = self.prices_and_age.duplicate();
        let rewards = self.rewards.duplicate();
        proof {
            lemma_price_models(self.prices_and_age@);
            lemma_price_models(prices_and_age@);
            lemma_reward_models(self.rewards@);
            lemma_reward_models(rewards@);
        }
        OracleMessage {
            channel_id: self.channel_id.duplicate(),
            prices_and_age,
            timestamp: self.timestamp,
            rewards,
        }
    }
}

/// The encoding of an oracle message.
pub open spec fn oracle_message_cbor(message: OracleMessageModel) -> Seq<u8> {
    cbor_constr(
        121,
        seq![
            cbor_bytestring(message.channel_id),
            prices_cbor(EmptyArray::Indefinite, message.prices_and_age),
            cbor_uint(message.timestamp as nat),
            rewards_cbor(message.rewards),
        ],
    )
}

proof fn lemma_joined_fields(a: Seq<u8>, b: Seq<u8>, c: Seq<u8>, d: Seq<u8>)
    ensures
        joined(seq![a, b, c, d]) == a + b + c + d,
{
    lemma_joined_two(a, b);
    lemma_joined_push(seq![a, b], c);
    lemma_joined_push(seq![a, b, c], d);
    assert(seq![a, b].push(c) =~= seq![a, b, c]);
    assert(seq![a, b, c].push(d) =~= seq![a, b, c, d]);
}

impl OracleMessage {
    pub fn to_cardano_cbor(&self) -> (r: Vec<u8>)
        ensures
            r@ == oracle_message_cbor(self.model()),
    {
        let mut buf: Vec<u8> = Vec::new();
        put_tag(&mut buf, 121);
        put_begin_array(&mut buf);
        put_bytes(&mut buf, self.channel_id.as_vec().as_slice());
        put_prices(&mut buf, EmptyArray::Indefinite, self.prices_and_age.as_vec());
        put_amount(&mut buf, self.timestamp);
        put_rewards(&mut buf, self.rewards.as_vec());
        put_end(&mut buf);
        proof {
            let message = self.model();
            lemma_byte_models(self.channel_id@);
            lemma_joined_fields(
                cbor_bytestring(message.channel_id),
                prices_cbor(EmptyArray::Indefinite, message.prices_and_age),
                cbor_uint(message.timestamp as nat),
                rewards_cbor(message.rewards),
            );
            assert(buf@ =~= oracle_message_cbor(message));
        }
        buf
    }

    /// Blake2b-256 hash of the CBOR.
    pub fn cardano_cbor_hash(&self) -> (r: [u8; 32])
        ensures
            r@ == blake2_256_digest(oracle_message_cbor(self.model())),
    {
        let cbor_data = self.to_cardano_cbor();
        blake2_256(cbor_data.as_slice())
    }
}

impl CardanoCbor for OracleMessage {
    open spec fn cardano_cbor(&self) -> Seq<u8> {
        oracle_message_cbor(self.model())
    }

    fn to_cardano_cbor(&self) -> (r: Vec<u8>) {
        OracleMessage::to_cardano_cbor(self)
    }
}

impl CborHashable for OracleMessage {
    fn cardano_cbor_hash(&self) -> (r: [u8; 32]) {
        OracleMessage::cardano_cbor_hash(self)
    }
}

proof fn lemma_oracle_layout(message: OracleMessageModel)
    ensures
        oracle_message_cbor(message).skip(3) == cbor_bytestring(message.channel_id) + (prices_cbor(
            EmptyArray::Indefinite,
            message.prices_and_age,
        ) + (cbor_uint(message.timestamp as nat) + (rewards_cbor(message.rewards) + seq![0xffu8]))),
{
    let c = cbor_bytestring(message.channel_id);
    let p = prices_cbor(EmptyArray::Indefinite, message.prices_and_age);
    let t = cbor_uint(message.timestamp as nat);
    let r = rewards_cbor(message.rewards);
    lemma_tag_heads();
    lemma_joined_fields(c, p, t, r);
    assert(oracle_message_cbor(message).skip(3) =~= c + (p + (t + (r + seq![0xffu8]))));
}

/// Two oracle messages with one encoding are the same message.
pub proof fn lemma_oracle_cbor_injective(a: OracleMessageModel, b: OracleMessageModel)
    requires
        a.channel_id.len() <= 64,
        b.channel_id.len() <= 64,
        oracle_message_cbor(a) == oracle_message_cbor(b),
    ensures
        a == b,
{
    let style = EmptyArray::Indefinite;
    let end = seq![0xffu8];
    lemma_oracle_layout(a);
    lemma_oracle_layout(b);
    let after_time_a = rewards_cbor(a.rewards) + end;
    let after_time_b = rewards_cbor(b.rewards) + end;
    let after_prices_a = cbor_uint(a.timestamp as nat) + after_time_a;
    let after_prices_b = cbor_uint(b.timestamp as nat) + after_time_b;
    lemma_bytestring_read_back(
        a.channel_id,
        b.channel_id,
        prices_cbor(style, a.prices_and_age) + after_prices_a,
        prices_cbor(style, b.prices_and_age) + after_prices_b,
    );
    lemma_prices_read_back(
        style,
        a.prices_and_age,
        b.prices_and_age,
        after_prices_a,
        after_prices_b,
    );
    lemma_head_read_back(
        0x00,
        a.timestamp as nat,
        b.timestamp as nat,
        after_time_a,
        after_time_b,
    );
    lemma_rewards_read_back(a.rewards, b.rewards, end, end);
}

// ---------------------------------------------------------------------------------------------
// Storage

#[derive(Clone, Copy, Debug, PartialEq, Eq, Structural)]
pub enum Error {
    /// Oracle node is not authorized to submit data
    UnauthorizedNode,
}

#[allow(inconsistent_fields)]
#[derive(Debug, PartialEq, Eq)]
pub enum Event {
    StoredPrices { count: u16, who: AccountId, when: BlockNumber },
    StoredSignatures {
        who: AccountId,
        when: BlockNumber,
        signatures: Vec<(OracleMessage, Signature)>,
    },
    Status { current_state: AggregationState, block: BlockNumber },
    UpdatedConfig {
        consensus_config: ConsensusConfiguration,
        channels_to_trade_pairs: MessagesConfiguration,
        block: BlockNumber,
    },
    AddedOracleNode { which: AccountId, block: BlockNumber },
    RemovedOracleNode { which: AccountId, block: BlockNumber },
}

#[allow(inconsistent_fields)]
#[verifier::ext_equal]
pub enum EventModel {
    StoredPrices { count: u16, who: AccountId, when: BlockNumber },
    StoredSignatures {
        who: AccountId,
        when: BlockNumber,
        signatures: Seq<(OracleMessageModel, Seq<u8>)>,
    },
    Status { current_state: AggregationModel, block: BlockNumber },
    UpdatedConfig {
        consensus_config: ConsensusModel,
        channels_to_trade_pairs: Seq<(Seq<u8>, Seq<u16>)>,
        block: BlockNumber,
    },
    AddedOracleNode { which: AccountId, block: BlockNumber },
    RemovedOracleNode { which: AccountId, block: BlockNumber },
}

impl Event {
    pub open spec fn model(&self) -> EventModel {
        match *self {
            Event::StoredPrices { count, who, when } => EventModel::StoredPrices {
                count,
                who,
                when,
            },
            Event::StoredSignatures { who, when, signatures } => EventModel::StoredSignatures {
                who,
                when,
                signatures: signatures.model(),
            },
            Event::Status { current_state, block } => EventModel::Status {
                current_state: current_state.model(),
                block,
            },
            Event::UpdatedConfig { consensus_config, channels_to_trade_pairs, block } =>
                EventModel::UpdatedConfig {
                consensus_config: consensus_config.model(),
                channels_to_trade_pairs: channels_to_trade_pairs.model(),
                block,
            },
            Event::AddedOracleNode { which, block } => EventModel::AddedOracleNode {
                which,
                block,
            },
            Event::RemovedOracleNode { which, block } => EventModel::RemovedOracleNode {
                which,
                block,
            },
        }
    }
}

/// The storage of the pallet and the events it has deposited.
#[derive(Debug, PartialEq, Eq)]
pub struct Pallet {
    pub min_nodes_for_trusted_aggregation: Option<u32>,
    pub feed_age: Option<u16>,
    pub outliers_range: Option<u32>,
    pub divergency: Option<u32>,
    pub trade_pairs: Option<BoundedVec<TradePair, 64>>,
    pub channels_to_trade_pairs: Option<MessagesConfiguration>,
    pub authorized_oracle_nodes: SortedMap<AccountId, ()>,
    /// The latest price of each node and the block it was submitted in, by trade pair and node.
    pub nodes_prices: SortedMap<(TradePair, AccountId), (u64, BlockNumber)>,
    /// Prices after the consensus of the nodes.
    pub aggregation: Option<AggregationState>,
    /// Signatures by the channel and timestamp of the oracle message and the signatory.
    pub signature_storage: SortedMap<((ChannelId, u64), AccountId), [u8; 64]>,
    pub events: Vec<Event>,
}

#[verifier::ext_equal]
pub struct PalletModel {
    pub min_nodes_for_trusted_aggregation: Option<u32>,
    pub feed_age: Option<u16>,
    pub outliers_range: Option<u32>,
    pub divergency: Option<u32>,
    pub trade_pairs: Option<Seq<PairModel>>,
    pub channels_to_trade_pairs: Option<Seq<(Seq<u8>, Seq<u16>)>>,
    pub authorized_oracle_nodes: Map<AccountId, ()>,
    pub nodes_prices: Map<(PairModel, AccountId), (u64, BlockNumber)>,
    pub aggregation: Option<AggregationModel>,
    pub signature_storage: Map<((Seq<u8>, u64), AccountId), [u8; 64]>,
    pub events: Seq<EventModel>,
}

pub open spec fn event_models(events: Seq<Event>) -> Seq<EventModel> {
    events.map_values(|event: Event| event.model())
}

impl View for Pallet {
    type V = PalletModel;

    open spec fn view(&self) -> PalletModel {
        PalletModel {
            min_nodes_for_trusted_aggregation: self.min_nodes_for_trusted_aggregation,
            feed_age: self.feed_age,
            outliers_range: self.outliers_range,
            divergency: self.divergency,
            trade_pairs: self.trade_pairs.model(),
            channels_to_trade_pairs: self.channels_to_trade_pairs.model(),
            authorized_oracle_nodes: self.authorized_oracle_nodes@,
            nodes_prices: self.nodes_prices@,
            aggregation: self.aggregation.model(),
            signature_storage: self.signature_storage@,
            events: event_models(self.events@),
        }
    }
}

/// A pallet without any storage.
pub open spec fn empty_pallet() -> PalletModel {
    PalletModel {
        min_nodes_for_trusted_aggregation: None,
        feed_age: None,
        outliers_range: None,
        divergency: None,
        trade_pairs: None,
        channels_to_trade_pairs: None,
        authorized_oracle_nodes: Map::empty(),
        nodes_prices: Map::empty(),
        aggregation: None,
        signature_storage: Map::empty(),
        events: Seq::empty(),
    }
}

// ---------------------------------------------------------------------------------------------
// Calls

/// Only authorized oracle nodes can submit data.
pub open spec fn submission_refusal(s: PalletModel, origin: Origin) -> Option<
    DispatchError<Error>,
> {
    match origin {
        Origin::Signed(who) => if s.authorized_oracle_nodes.contains_key(who) {
            None
        } else {
            Some(DispatchError::Module(Error::UnauthorizedNode))
        },
        _ => Some(DispatchError::BadOrigin),
    }
}

/// Why prices are refused.
pub open spec fn prices_refusal(s: PalletModel, origin: Origin, count: nat) -> Option<
    DispatchError<Error>,
> {
    if submission_refusal(s, origin) is Some {
        submission_refusal(s, origin)
    } else if count > u16::MAX {
        Some(DispatchError::CountOverflow)
    } else {
        None
    }
}

pub open spec fn root_refusal(origin: Origin) -> Option<DispatchError<Error>> {
    if origin == Origin::Root {
        None
    } else {
        Some(DispatchError::BadOrigin)
    }
}

pub open spec fn prices_stored(
    s: PalletModel,
    who: AccountId,
    when: BlockNumber,
    prices: Seq<(PairModel, u64)>,
) -> PalletModel {
    PalletModel {
        nodes_prices: with_prices(s.nodes_prices, who, when, prices),
        events: s.events.push(EventModel::StoredPrices { count: prices.len() as u16, who, when }),
        ..s
    }
}

/// The signatures with those of a node added; of two for one channel and timestamp the later stays.
pub open spec fn with_signatures(
    stored: Map<((Seq<u8>, u64), AccountId), [u8; 64]>,
    who: AccountId,
    signatures: Seq<(OracleMessageModel, Seq<u8>)>,
) -> Map<((Seq<u8>, u64), AccountId), [u8; 64]>
    decreases signatures.len(),
{
    if signatures.len() == 0 {
        stored
    } else {
        let (message, signature) = signatures.last();
        with_signatures(stored, who, signatures.drop_last()).insert(
            ((message.channel_id, message.timestamp), who),
            signature_bytes(signature),
        )
    }
}

pub open spec fn signatures_stored(
    s: PalletModel,
    who: AccountId,
    when: BlockNumber,
    signatures: Seq<(OracleMessageModel, Seq<u8>)>,
) -> PalletModel {
    PalletModel {
        signature_storage: with_signatures(s.signature_storage, who, signatures),
        events: s.events.push(EventModel::StoredSignatures { who, when, signatures }),
        ..s
    }
}

/// Every signature has the length of an ed25519 or sr25519 signature with its scheme byte.
pub open spec fn signatures_fit(signatures: Seq<(OracleMessage, Signature)>) -> bool {
    forall|i: int| 0 <= i < signatures.len() ==> (#[trigger] signatures[i]).1.encoded@.len() == 65
}

pub open spec fn configured(
    s: PalletModel,
    when: BlockNumber,
    consensus: ConsensusModel,
    channels: Seq<(Seq<u8>, Seq<u16>)>,
) -> PalletModel {
    PalletModel {
        min_nodes_for_trusted_aggregation: Some(consensus.min_nodes_for_trusted_aggregation),
        feed_age: Some(consensus.feed_age),
        outliers_range: Some(consensus.outliers_range),
        divergency: Some(consensus.divergency),
        trade_pairs: Some(consensus.trade_pairs),
        channels_to_trade_pairs: Some(channels),
        events: s.events.push(
            EventModel::UpdatedConfig {
                consensus_config: consensus,
                channels_to_trade_pairs: channels,
                block: when,
            },
        ),
        ..s
    }
}

impl Pallet {
    pub fn new() -> (pallet: Pallet)
        ensures
            pallet@ == empty_pallet(),
    {
        let pallet = Pallet {
            min_nodes_for_trusted_aggregation: None,
            feed_age: None,
            outliers_range: None,
            divergency: None,
            trade_pairs: None,
            channels_to_trade_pairs: None,
            authorized_oracle_nodes: SortedMap::new(),
            nodes_prices: SortedMap::new(),
            aggregation: None,
            signature_storage: SortedMap::new(),
            events: Vec::new(),
        };
        assert(pallet@ =~= empty_pallet());
        pallet
    }

    fn deposit_event(&mut self, event: Event)
        ensures
            final(self)@ == (PalletModel {
                events: old(self)@.events.push(event.model()),
                ..old(self)@
            }),
    {
        self.events.push(event);
        assert(event_models(self.events@) =~= event_models(old(self).events@).push(event.model()));
    }

    /// Stores the latest prices of an oracle node.
    pub fn store_prices(
        &mut self,
        origin: Origin,
        when: BlockNumber,
        prices: Vec<(TradePair, u64)>,
    ) -> (r: Result<(), DispatchError<Error>>)
        ensures
            ({
                let refusal = prices_refusal(old(self)@, origin, prices@.len());
                &&& r == outcome(refusal)
                &&& final(self)@ == if refusal is Some {
                    old(self)@
                } else {
                    prices_stored(old(self)@, origin->Signed_0, when, prices.model())
                }
            }),
    {
        let who = match origin {
            Origin::Signed(who) => who,
            _ => {
                return Err(DispatchError::BadOrigin);
            },
        };
        if !self.authorized_oracle_nodes.contains_key(&who) {
            return Err(DispatchError::Module(Error::UnauthorizedNode));
        }
        if prices.len() > u16::MAX as usize {
            return Err(DispatchError::CountOverflow);
        }
        let ghost all = prices.model();
        let ghost start = self@;
        assert(all.take(0) =~= Seq::<(PairModel, u64)>::empty());
        for i in 0..prices.len()
            invariant
                all == prices.model(),
                self@ == (PalletModel {
                    nodes_prices: with_prices(
                        start.nodes_prices,
                        who,
                        when,
                        all.take(i as int),
                    ),
                    ..start
                }),
        {
            proof {
                assert(all.take(i + 1).drop_last() =~= all.take(i as int));
                assert(all.take(i + 1).last() == prices@[i as int].model());
            }
            self.nodes_prices.insert((prices[i].0.duplicate(), who), (prices[i].1, when));
        }
        assert(all.take(all.len() as int) =~= all);
        self.deposit_event(Event::StoredPrices { count: prices.len() as u16, who, when });
        assert(self@ =~= prices_stored(start, who, when, all));
        Ok(())
    }

    /// Stores the signatures of an oracle node for oracle messages.
    pub fn store_signatures(
        &mut self,
        origin: Origin,
        when: BlockNumber,
        signatures: Vec<(OracleMessage, Signature)>,
    ) -> (r: Result<(), DispatchError<Error>>)
        requires
            submission_refusal(old(self)@, origin) is None ==> signatures_fit(signatures@),
        ensures
            ({
                let refusal = submission_refusal(old(self)@, origin);
                &&& r == outcome(refusal)
                &&& final(self)@ == if refusal is Some {
                    old(self)@
                } else {
                    signatures_stored(old(self)@, origin->Signed_0, when, signatures.model())
                }
            }),
    {
        let who = match origin {
            Origin::Signed(who) => who,
            _ => {
                return Err(DispatchError::BadOrigin);
            },
        };
        if !self.authorized_oracle_nodes.contains_key(&who) {
            return Err(DispatchError::Module(Error::UnauthorizedNode));
        }
        let ghost all = signatures.model();
        let ghost start = self@;
        assert(all.take(0) =~= Seq::<(OracleMessageModel, Seq<u8>)>::empty());
        for i in 0..signatures.len()
            invariant
                all == signatures.model(),
                signatures_fit(signatures@),
                self@ == (PalletModel {
                    signature_storage: with_signatures(
                        start.signature_storage,
                        who,
                        all.take(i as int),
                    ),
                    ..start
                }),
        {
            proof {
                assert(all.take(i + 1).drop_last() =~= all.take(i as int));
                assert(all.take(i + 1).last() == signatures@[i as int].model());
            }
            let message = &signatures[i].0;
            let signature_encoded = strip_scheme(&signatures[i].1);
            self.signature_storage.insert(
                ((message.channel_id.duplicate(), message.timestamp), who),
                signature_encoded,
            );
        }
        assert(all.take(all.len() as int) =~= all);
        self.deposit_event(Event::StoredSignatures { who, when, signatures });
        assert(self@ =~= signatures_stored(start, who, when, all));
        Ok(())
    }

    /// The root sets the configuration of the oracle.
    pub fn sudo_set_config(
        &mut self,
        origin: Origin,
        when: BlockNumber,
        consensus_config: ConsensusConfiguration,
        channels_to_trade_pairs: MessagesConfiguration,
    ) -> (r: Result<(), DispatchError<Error>>)
        ensures
            r == outcome(root_refusal(origin)),
            final(self)@ == if root_refusal(origin) is Some {
                old(self)@
            } else {
                configured(
                    old(self)@,
                    when,
                    consensus_config.model(),
                    channels_to_trade_pairs.model(),
                )
            },
    {
        match origin {
            Origin::Root => {},
            _ => {
                return Err(DispatchError::BadOrigin);
            },
        }
        self.min_nodes_for_trusted_aggregation = Some(
            consensus_config.min_nodes_for_trusted_aggregation,
        );
        self.feed_age = Some(consensus_config.feed_age);
        self.outliers_range = Some(consensus_config.outliers_range);
        self.divergency = Some(consensus_config.divergency);
        self.trade_pairs = Some(consensus_config.trade_pairs.duplicate());
        self.channels_to_trade_pairs = Some(channels_to_trade_pairs.duplicate());
        let ghost consensus = consensus_config.model();
        let ghost channels = channels_to_trade_pairs.model();
        self.deposit_event(
            Event::UpdatedConfig { consensus_config, channels_to_trade_pairs, block: when },
        );
        assert(self@ =~= configured(old(self)@, when, consensus, channels));
        Ok(())
    }
}

/// The latest of the submitted signatures for a channel and timestamp is stored.
pub proof fn lemma_signature_read_back(
    stored: Map<((Seq<u8>, u64), AccountId), [u8; 64]>,
    who: AccountId,
    signatures: Seq<(OracleMessageModel, Seq<u8>)>,
    i: int,
)
    requires
        0 <= i < signatures.len(),
        forall|j: int|
            i < j < signatures.len() ==> ((#[trigger] signatures[j]).0.channel_id
                != signatures[i].0.channel_id || signatures[j].0.timestamp
                != signatures[i].0.timestamp),
    ensures
        ({
            let after = with_signatures(stored, who, signatures);
            let key = ((signatures[i].0.channel_id, signatures[i].0.timestamp), who);
            after.contains_key(key) && after[key] == signature_bytes(signatures[i].1)
        }),
    decreases signatures.len(),
{
    let rest = signatures.drop_last();
    if i < rest.len() {
        assert(rest[i] == signatures[i]);
        assert forall|j: int| i < j < rest.len() implies ((#[trigger] rest[j]).0.channel_id
            != rest[i].0.channel_id || rest[j].0.timestamp != rest[i].0.timestamp) by {
            assert(rest[j] == signatures[j]);
        }
        lemma_signature_read_back(stored, who, rest, i);
        assert(signatures[signatures.len() - 1] == signatures.last());
    }
}

// ---------------------------------------------------------------------------------------------
// Genesis

/// oracle genesis config definition
#[derive(Debug, PartialEq, Eq)]
pub struct GenesisConfig {
    pub min_nodes_for_trusted_aggregation: u32,
    pub authorized_nodes: BoundedVec<AccountId, 32>,
    pub feed_age: u16,
    pub outliers_range: u32,
    pub divergency: u32,
    pub trade_pairs: BoundedVec<TradePair, 64>,
    pub channels_to_trade_pairs: MessagesConfiguration,
}

/// The nodes with the founding nodes added.
pub open spec fn with_founders(
    nodes: Map<AccountId, ()>,
    founders: Seq<AccountId>,
) -> Map<AccountId, ()>
    decreases founders.len(),
{
    if founders.len() == 0 {
        nodes
    } else {
        with_founders(nodes, founders.drop_last()).insert(founders.last(), ())
    }
}

impl Default for GenesisConfig {
    fn default() -> (config: GenesisConfig)
        ensures
            config.min_nodes_for_trusted_aggregation == 0,
            config.authorized_nodes@.len() == 0,
            config.feed_age == 0,
            config.outliers_range == 0,
            config.divergency == 0,
            config.trade_pairs.model() == seq![ada_usd()],
            config.channels_to_trade_pairs@.len() == 0,
    {
        let mut pairs: Vec<TradePair> = Vec::new();
        pairs.push(ada_usd_pair());
        let trade_pairs: BoundedVec<TradePair, 64> = BoundedVec::truncate_from(pairs);
        assert(trade_pairs.model() =~= seq![ada_usd()]);
        GenesisConfig {
            min_nodes_for_trusted_aggregation: 0,
            authorized_nodes: BoundedVec::new(),
            feed_age: 0,
            outliers_range: 0,
            divergency: 0,
            trade_pairs,
            channels_to_trade_pairs: BoundedVec::new(),
        }
    }
}

impl GenesisConfig {
    /// The storage that the genesis leaves behind.
    pub open spec fn built(&self, s: PalletModel) -> PalletModel {
        PalletModel {
            min_nodes_for_trusted_aggregation: Some(self.min_nodes_for_trusted_aggregation),
            feed_age: Some(self.feed_age),
            outliers_range: Some(self.outliers_range),
            divergency: Some(self.divergency),
            trade_pairs: Some(self.trade_pairs.model()),
            channels_to_trade_pairs: Some(self.channels_to_trade_pairs.model()),
            authorized_oracle_nodes: with_founders(
                s.authorized_oracle_nodes,
                self.authorized_nodes@,
            ),
            ..s
        }
    }

    /// Writes the configuration to storage.
    pub fn build(&self, pallet: &mut Pallet)
        ensures
            final(pallet)@ == self.built(old(pallet)@),
    {
        pallet.min_nodes_for_trusted_aggregation = Some(self.min_nodes_for_trusted_aggregation);
        pallet.feed_age = Some(self.feed_age);
        pallet.outliers_range = Some(self.outliers_range);
        pallet.divergency = Some(self.divergency);
        pallet.trade_pairs = Some(self.trade_pairs.duplicate());
        pallet.channels_to_trade_pairs = Some(self.channels_to_trade_pairs.duplicate());
        let ghost settings = pallet@;
        let ghost before = old(pallet)@.authorized_oracle_nodes;
        let n: usize = self.authorized_nodes.len();
        for i in 0..n
            invariant
                n == self.authorized_nodes@.len(),
                pallet@ == (PalletModel {
                    authorized_oracle_nodes: with_founders(
                        before,
                        self.authorized_nodes@.take(i as int),
                    ),
                    ..settings
                }),
        {
            proof {
                let shorter = self.authorized_nodes@.take(i as int);
                let longer = self.authorized_nodes@.take(i + 1);
                assert(longer.drop_last() =~= shorter);
            }
            pallet.authorized_oracle_nodes.insert(*self.authorized_nodes.at(i), ());
        }
        assert(self.authorized_nodes@.take(self.authorized_nodes@.len() as int)
            =~= self.authorized_nodes@);
    }
}

} // verus!
