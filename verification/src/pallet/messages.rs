//! The messages that oracle nodes and admins sign for Cardano.
use crate::bounded::{lemma_byte_models, BoundedVec};
use crate::encoding::cbor::{
    cbor_bytestring, cbor_constr, cbor_head, cbor_uint, joined, lemma_bytestring_read_back,
    lemma_head_read_back, lemma_joined_push, put_begin_array, put_bytes, put_end, put_tag, put_u32,
    put_u64,
};
use crate::encoding::entries::{
    lemma_joined_one, lemma_joined_two, lemma_prices_read_back, lemma_rewards_read_back,
    lemma_tag_heads, none_cbor, prices_cbor, put_amount, put_none, put_prices, put_rewards,
    rewards_cbor, EmptyArray,
};
use crate::encoding::hash::{blake2_256, blake2_256_digest};
use crate::encoding::{CardanoCbor, CborHashable};
use crate::model::{models, Model};
use crate::types::ChannelId;
use vstd::prelude::*;

verus! {

// ---------------------------------------------------------------------------------------------
// Oracle messages

/// This is the aggregated Oracle Message
#[derive(Debug, PartialEq, Eq)]
pub struct OracleMessage {
    /// Channel aka Message Queue ID,
    /// any subscriber can then use this to identify the message they wanted to bridge.
    pub channel_id: ChannelId,
    /// Vec of prices and their respective age (in blocks ago).
    pub prices_and_age: BoundedVec<Option<(u64, u16)>, 64>,
    /// Aggregation timestamp.
    pub timestamp: u64,
    /// Vec of byte arrays for ed25519 public keys with reward multiplier.
    pub rewards: BoundedVec<([u8; 32], u16), 64>,
    /// Optional reward asset: (policy_id, asset_name).
    pub reward_asset: Option<(ChannelId, BoundedVec<u8, 64>)>,
}

#[verifier::ext_equal]
pub struct OracleMessageModel {
    pub channel_id: Seq<u8>,
    pub prices_and_age: Seq<Option<(u64, u16)>>,
    pub timestamp: u64,
    pub rewards: Seq<([u8; 32], u16)>,
    pub reward_asset: Option<(Seq<u8>, Seq<u8>)>,
}

impl Model for OracleMessage {
    type M = OracleMessageModel;

    open spec fn model(&self) -> OracleMessageModel {
        OracleMessageModel {
            channel_id: self.channel_id.model(),
            prices_and_age: self.prices_and_age@,
            timestamp: self.timestamp,
            rewards: self.rewards@,
            reward_asset: self.reward_asset.model(),
        }
    }

    fn duplicate(&self) -> (copy: OracleMessage) {
        let prices_and_age = self.prices_and_age.duplicate();
        let rewards = self.rewards.duplicate();
        proof {
            lemma_price_models(self.prices_and_age@);
            lemma_price_models(prices_and_age@);
            lemma_reward_models(self.rewards@);
            lemma_reward_models(rewards@);
        }
        OracleMessage {
            channel_id: self.channel_id.duplicate(),
            prices_and_age,
            timestamp: self.timestamp,
            rewards,
            reward_asset: self.reward_asset.duplicate(),
        }
    }
}

pub proof fn lemma_price_models(prices: Seq<Option<(u64, u16)>>)
    ensures
        models(prices) == prices,
{
    assert forall|i: int| 0 <= i < prices.len() implies models(prices)[i] == prices[i] by {
        match prices[i] {
            Some(entry) => {
                assert(entry.model() == entry);
            },
            None => {},
        }
    }
    assert(models(prices) =~= prices);
}

pub proof fn lemma_reward_models(rewards: Seq<([u8; 32], u16)>)
    ensures
        models(rewards) == rewards,
{
    assert forall|i: int| 0 <= i < rewards.len() implies models(rewards)[i] == rewards[i] by {
        assert(rewards[i].model() == rewards[i]);
    }
    assert(models(rewards) =~= rewards);
}

/// The asset that rewards are paid in, if one is set.
pub open spec fn asset_cbor(asset: Option<(Seq<u8>, Seq<u8>)>) -> Seq<u8> {
    match asset {
        Some((policy_id, asset_name)) => cbor_constr(
            121,
            seq![cbor_constr(121, seq![cbor_bytestring(policy_id), cbor_bytestring(asset_name)])],
        ),
        None => none_cbor(EmptyArray::Definite),
    }
}

/// The encoding of an oracle message.
pub open spec fn oracle_message_cbor(message: OracleMessageModel) -> Seq<u8> {
    cbor_constr(
        121,
        seq![
            cbor_bytestring(message.channel_id),
            prices_cbor(EmptyArray::Definite, message.prices_and_age),
            cbor_uint(message.timestamp as nat),
            rewards_cbor(message.rewards),
            asset_cbor(message.reward_asset),
        ],
    )
}

proof fn lemma_joined_five(a: Seq<u8>, b: Seq<u8>, c: Seq<u8>, d: Seq<u8>, e: Seq<u8>)
    ensures
        joined(seq![a, b, c, d, e]) == a + b + c + d + e,
{
    lemma_joined_two(a, b);
    lemma_joined_push(seq![a, b], c);
    lemma_joined_push(seq![a, b, c], d);
    lemma_joined_push(seq![a, b, c, d], e);
    assert(seq![a, b].push(c) =~= seq![a, b, c]);
    assert(seq![a, b, c].push(d) =~= seq![a, b, c, d]);
    assert(seq![a, b, c, d].push(e) =~= seq![a, b, c, d, e]);
}

fn put_asset(buf: &mut Vec<u8>, asset: &Option<(ChannelId, BoundedVec<u8, 64>)>)
    ensures
        final(buf)@ == old(buf)@ + asset_cbor(asset.model()),
{
    match asset {
        Some((policy_id, asset_name)) => {
            put_tag(buf, 121);
            put_begin_array(buf);
            put_tag(buf, 121);
            put_begin_array(buf);
            put_bytes(buf, policy_id.as_vec().as_slice());
            put_bytes(buf, asset_name.as_vec().as_slice());
            put_end(buf);
            put_end(buf);
            proof {
                lemma_byte_models(policy_id@);
                lemma_byte_models(asset_name@);
                let p = cbor_bytestring(policy_id@);
                let n = cbor_bytestring(asset_name@);
                lemma_joined_two(p, n);
                lemma_joined_one(cbor_constr(121, seq![p, n]));
                assert(buf@ =~= old(buf)@ + asset_cbor(asset.model()));
            }
        },
        None => {
            put_none(buf, EmptyArray::Definite);
        },
    }
}

impl OracleMessage {
    pub fn to_cardano_cbor(&self) -> (r: Vec<u8>)
        ensures
            r@ == oracle_message_cbor(self.model()),
    {
        let mut buf: Vec<u8> = Vec::new();
        put_tag(&mut buf, 121);
        put_begin_array(&mut buf);
        put_bytes(&mut buf, self.channel_id.as_vec().as_slice());
        put_prices(&mut buf, EmptyArray::Definite, self.prices_and_age.as_vec());
        put_amount(&mut buf, self.timestamp);
        put_rewards(&mut buf, self.rewards.as_vec());
        put_asset(&mut buf, &self.reward_asset);
        put_end(&mut buf);
        proof {
            let message = self.model();
            lemma_byte_models(self.channel_id@);
            lemma_joined_five(
                cbor_bytestring(message.channel_id),
                prices_cbor(EmptyArray::Definite, message.prices_and_age),
                cbor_uint(message.timestamp as nat),
                rewards_cbor(message.rewards),
                asset_cbor(message.reward_asset),
            );
            assert(buf@ =~= oracle_message_cbor(message));
        }
        buf
    }

    /// Blake2b-256 hash of the CBOR.
    pub fn cardano_cbor_hash(&self) -> (r: [u8; 32])
        ensures
            r@ == blake2_256_digest(oracle_message_cbor(self.model())),
    {
        let cbor_data = self.to_cardano_cbor();
        blake2_256(cbor_data.as_slice())
    }
}

impl CardanoCbor for OracleMessage {
    open spec fn cardano_cbor(&self) -> Seq<u8> {
        oracle_message_cbor(self.model())
    }

    fn to_cardano_cbor(&self) -> (r: Vec<u8>) {
        OracleMessage::to_cardano_cbor(self)
    }
}

impl CborHashable for OracleMessage {
    fn cardano_cbor_hash(&self) -> (r: [u8; 32]) {
        OracleMessage::cardano_cbor_hash(self)
    }
}

// ---------------------------------------------------------------------------------------------
// Certificates

/// Staking certificate message, CBOR-encoded and signed by admin nodes.
/// Contains both Cardano PKHs so the bridge can update OracleSettings.nodes_admin
/// and OracleSettings.nodes_aggregation when placing the stake.
#[derive(Debug, PartialEq, Eq)]
pub struct StakingMessage {
    /// Cardano PKH for admin key, added to OracleSettings.nodes_admin.
    pub cardano_pkh_admin: BoundedVec<u8, 32>,
    /// Cardano PKH for oracle/aggregation key, added to OracleSettings.nodes_aggregation.
    pub cardano_pkh_aggregation: BoundedVec<u8, 32>,
    /// Stake amount in lovelace.
    pub stake_amount: u64,
    /// Partnerchain block until which stake is locked.
    pub lock_until: u32,
}

#[verifier::ext_equal]
pub struct StakingMessageModel {
    pub cardano_pkh_admin: Seq<u8>,
    pub cardano_pkh_aggregation: Seq<u8>,
    pub stake_amount: u64,
    pub lock_until: u32,
}

impl Model for StakingMessage {
    type M = StakingMessageModel;

    open spec fn model(&self) -> StakingMessageModel {
        StakingMessageModel {
            cardano_pkh_admin: self.cardano_pkh_admin.model(),
            cardano_pkh_aggregation: self.cardano_pkh_aggregation.model(),
            stake_amount: self.stake_amount,
            lock_until: self.lock_until,
        }
    }

    fn duplicate(&self) -> (copy: StakingMessage) {
        StakingMessage {
            cardano_pkh_admin: self.cardano_pkh_admin.duplicate(),
            cardano_pkh_aggregation: self.cardano_pkh_aggregation.duplicate(),
            stake_amount: self.stake_amount,
            lock_until: self.lock_until,
        }
    }
}

pub open spec fn staking_message_cbor(message: StakingMessageModel) -> Seq<u8> {
    cbor_constr(
        121,
        seq![
            cbor_bytestring(message.cardano_pkh_admin),
            cbor_bytestring(message.cardano_pkh_aggregation),
            cbor_uint(message.stake_amount as nat),
            cbor_uint(message.lock_until as nat),
        ],
    )
}

proof fn lemma_joined_four(a: Seq<u8>, b: Seq<u8>, c: Seq<u8>, d: Seq<u8>)
    ensures
        joined(seq![a, b, c, d]) == a + b + c + d,
{
    lemma_joined_two(a, b);
    lemma_joined_push(seq![a, b], c);
    lemma_joined_push(seq![a, b, c], d);
    assert(seq![a, b].push(c) =~= seq![a, b, c]);
    assert(seq![a, b, c].push(d) =~= seq![a, b, c, d]);
}

impl StakingMessage {
    /// Encode to Cardano-compatible CBOR.
    /// tag(121) + indefinite_array [ bytes(pkh_admin), bytes(pkh_aggregation), u64(stake_amount), u32(lock_until) ]
    pub fn to_cardano_cbor(&self) -> (r: Vec<u8>)
        ensures
            r@ == staking_message_cbor(self.model()),
    {
        let mut buf: Vec<u8> = Vec::new();
        put_tag(&mut buf, 121);
        put_begin_array(&mut buf);
        put_bytes(&mut buf, self.cardano_pkh_admin.as_vec().as_slice());
        put_bytes(&mut buf, self.cardano_pkh_aggregation.as_vec().as_slice());
        put_u64(&mut buf, self.stake_amount);
        put_u32(&mut buf, self.lock_until);
        put_end(&mut buf);
        proof {
            let message = self.model();
            lemma_byte_models(self.cardano_pkh_admin@);
            lemma_byte_models(self.cardano_pkh_aggregation@);
            lemma_joined_four(
                cbor_bytestring(message.cardano_pkh_admin),
                cbor_bytestring(message.cardano_pkh_aggregation),
                cbor_uint(message.stake_amount as nat),
                cbor_uint(message.lock_until as nat),
            );
            assert(buf@ =~= staking_message_cbor(message));
        }
        buf
    }

    /// Blake2b-256 hash of the CBOR: this is what each admin signs with their ed25519 key.
    pub fn cardano_cbor_hash(&self) -> (r: [u8; 32])
        ensures
            r@ == blake2_256_digest(staking_message_cbor(self.model())),
    {
        let cbor_data = self.to_cardano_cbor();
        blake2_256(cbor_data.as_slice())
    }
}

impl CardanoCbor for StakingMessage {
    open spec fn cardano_cbor(&self) -> Seq<u8> {
        staking_message_cbor(self.model())
    }

    fn to_cardano_cbor(&self) -> (r: Vec<u8>) {
        StakingMessage::to_cardano_cbor(self)
    }
}

impl CborHashable for StakingMessage {
    fn cardano_cbor_hash(&self) -> (r: [u8; 32]) {
        StakingMessage::cardano_cbor_hash(self)
    }
}

/// Withdrawal certificate message, CBOR-encoded and signed by admin nodes.
/// The approved_amount encodes the penalty: if approved_amount < staked_amount,
/// Cardano enforces that the difference goes to penalty_addr.
#[derive(Debug, PartialEq, Eq)]
pub struct WithdrawalMessage {
    /// Cardano admin PKH of the node withdrawing, which identifies the Stake UTxO on Cardano.
    pub cardano_pkh_admin: BoundedVec<u8, 32>,
    /// Approved withdrawal amount in lovelace.
    /// If less than staked, Cardano requires penalty output to penalty_addr.
    pub approved_amount: u64,
}

#[verifier::ext_equal]
pub struct WithdrawalMessageModel {
    pub cardano_pkh_admin: Seq<u8>,
    pub approved_amount: u64,
}

impl Model for WithdrawalMessage {
    type M = WithdrawalMessageModel;

    open spec fn model(&self) -> WithdrawalMessageModel {
        WithdrawalMessageModel {
            cardano_pkh_admin: self.cardano_pkh_admin.model(),
            approved_amount: self.approved_amount,
        }
    }

    fn duplicate(&self) -> (copy: WithdrawalMessage) {
        WithdrawalMessage {
            cardano_pkh_admin: self.cardano_pkh_admin.duplicate(),
            approved_amount: self.approved_amount,
        }
    }
}

pub open spec fn withdrawal_message_cbor(message: WithdrawalMessageModel) -> Seq<u8> {
    cbor_constr(
        121,
        seq![
            cbor_bytestring(message.cardano_pkh_admin),
            cbor_uint(message.approved_amount as nat),
        ],
    )
}

impl WithdrawalMessage {
    /// Encode to Cardano-compatible CBOR.
    /// tag(121) + indefinite_array [ bytes(cardano_pkh_admin), u64(approved_amount) ]
    pub fn to_cardano_cbor(&self) -> (r: Vec<u8>)
        ensures
            r@ == withdrawal_message_cbor(self.model()),
    {
        let mut buf: Vec<u8> = Vec::new();
        put_tag(&mut buf, 121);
        put_begin_array(&mut buf);
        put_bytes(&mut buf, self.cardano_pkh_admin.as_vec().as_slice());
        put_u64(&mut buf, self.approved_amount);
        put_end(&mut buf);
        proof {
            let message = self.model();
            lemma_byte_models(self.cardano_pkh_admin@);
            lemma_joined_two(
                cbor_bytestring(message.cardano_pkh_admin),
                cbor_uint(message.approved_amount as nat),
            );
            assert(buf@ =~= withdrawal_message_cbor(message));
        }
        buf
    }

    /// Blake2b-256 hash of the CBOR.
    pub fn cardano_cbor_hash(&self) -> (r: [u8; 32])
        ensures
            r@ == blake2_256_digest(withdrawal_message_cbor(self.model())),
    {
        let cbor_data = self.to_cardano_cbor();
        blake2_256(cbor_data.as_slice())
    }
}

impl CardanoCbor for WithdrawalMessage {
    open spec fn cardano_cbor(&self) -> Seq<u8> {
        withdrawal_message_cbor(self.model())
    }

    fn to_cardano_cbor(&self) -> (r: Vec<u8>) {
        WithdrawalMessage::to_cardano_cbor(self)
    }
}

impl CborHashable for WithdrawalMessage {
    fn cardano_cbor_hash(&self) -> (r: [u8; 32]) {
        WithdrawalMessage::cardano_cbor_hash(self)
    }
}

// ---------------------------------------------------------------------------------------------
// Encodings identify messages

/// What follows the tag and the start of the array in a constructor.
proof fn lemma_constr_tail(tag: nat, fields: Seq<Seq<u8>>, rest: Seq<u8>)
    ensures
        (cbor_constr(tag, fields) + rest).skip(cbor_head(0xc0, tag).len() as int + 1) == joined(fields) + (
        seq![0xffu8] + rest),
{
    assert((cbor_constr(tag, fields) + rest).skip(cbor_head(0xc0, tag).len() as int + 1) =~= joined(fields)
        + (seq![0xffu8] + rest));
}

/// Two withdrawal messages with one encoding are the same message.
pub proof fn lemma_withdrawal_cbor_injective(a: WithdrawalMessageModel, b: WithdrawalMessageModel)
    requires
        a.cardano_pkh_admin.len() <= 32,
        b.cardano_pkh_admin.len() <= 32,
        withdrawal_message_cbor(a) == withdrawal_message_cbor(b),
    ensures
        a == b,
{
    let end = seq![0xffu8] + Seq::<u8>::empty();
    let pa = cbor_bytestring(a.cardano_pkh_admin);
    let pb = cbor_bytestring(b.cardano_pkh_admin);
    let na = cbor_uint(a.approved_amount as nat);
    let nb = cbor_uint(b.approved_amount as nat);
    lemma_constr_tail(121, seq![pa, na], Seq::empty());
    lemma_constr_tail(121, seq![pb, nb], Seq::empty());
    assert(withdrawal_message_cbor(a) + Seq::<u8>::empty() =~= withdrawal_message_cbor(a));
    assert(withdrawal_message_cbor(b) + Seq::<u8>::empty() =~= withdrawal_message_cbor(b));
    lemma_joined_two(pa, na);
    lemma_joined_two(pb, nb);
    assert(pa + na + end =~= pa + (na + end));
    assert(pb + nb + end =~= pb + (nb + end));
    lemma_bytestring_read_back(a.cardano_pkh_admin, b.cardano_pkh_admin, na + end, nb + end);
    lemma_head_read_back(0x00, a.approved_amount as nat, b.approved_amount as nat, end, end);
}

/// Two staking messages with one encoding are the same message.
pub proof fn lemma_staking_cbor_injective(a: StakingMessageModel, b: StakingMessageModel)
    requires
        a.cardano_pkh_admin.len() <= 32,
        a.cardano_pkh_aggregation.len() <= 32,
        b.cardano_pkh_admin.len() <= 32,
        b.cardano_pkh_aggregation.len() <= 32,
        staking_message_cbor(a) == staking_message_cbor(b),
    ensures
        a == b,
{
    let end = seq![0xffu8] + Seq::<u8>::empty();
    let pa = cbor_bytestring(a.cardano_pkh_admin);
    let pb = cbor_bytestring(b.cardano_pkh_admin);
    let ga = cbor_bytestring(a.cardano_pkh_aggregation);
    let gb = cbor_bytestring(b.cardano_pkh_aggregation);
    let na = cbor_uint(a.stake_amount as nat);
    let nb = cbor_uint(b.stake_amount as nat);
    let la = cbor_uint(a.lock_until as nat);
    let lb = cbor_uint(b.lock_until as nat);
    lemma_constr_tail(121, seq![pa, ga, na, la], Seq::empty());
    lemma_constr_tail(121, seq![pb, gb, nb, lb], Seq::empty());
    assert(staking_message_cbor(a) + Seq::<u8>::empty() =~= staking_message_cbor(a));
    assert(staking_message_cbor(b) + Seq::<u8>::empty() =~= staking_message_cbor(b));
    lemma_joined_four(pa, ga, na, la);
    lemma_joined_four(pb, gb, nb, lb);
    assert(pa + ga + na + la + end =~= pa + (ga + (na + (la + end))));
    assert(pb + gb + nb + lb + end =~= pb + (gb + (nb + (lb + end))));
    lemma_bytestring_read_back(
        a.cardano_pkh_admin,
        b.cardano_pkh_admin,
        ga + (na + (la + end)),
        gb + (nb + (lb + end)),
    );
    lemma_bytestring_read_back(
        a.cardano_pkh_aggregation,
        b.cardano_pkh_aggregation,
        na + (la + end),
        nb + (lb + end),
    );
    lemma_head_read_back(
        0x00,
        a.stake_amount as nat,
        b.stake_amount as nat,
        la + end,
        lb + end,
    );
    lemma_head_read_back(0x00, a.lock_until as nat, b.lock_until as nat, end, end);
}

proof fn lemma_asset_read_back(
    a: Option<(Seq<u8>, Seq<u8>)>,
    b: Option<(Seq<u8>, Seq<u8>)>,
    x: Seq<u8>,
    y: Seq<u8>,
)
    requires
        a matches Some((p, n)) ==> p.len() <= 64 && n.len() <= 64,
        b matches Some((p, n)) ==> p.len() <= 64 && n.len() <= 64,
        asset_cbor(a) + x == asset_cbor(b) + y,
    ensures
        a == b,
        x == y,
{
    lemma_tag_heads();
    assert((asset_cbor(a) + x)[1] == (if a is Some {
        0x79u8
    } else {
        0x7au8
    }));
    assert((asset_cbor(b) + y)[1] == (if b is Some {
        0x79u8
    } else {
        0x7au8
    }));
    if a is Some {
        let (policy_a, name_a) = a->0;
        let (policy_b, name_b) = b->0;
        let pa = cbor_bytestring(policy_a);
        let qa = cbor_bytestring(name_a);
        let pb = cbor_bytestring(policy_b);
        let qb = cbor_bytestring(name_b);
        let end = seq![0xffu8, 0xffu8];
        lemma_joined_two(pa, qa);
        lemma_joined_two(pb, qb);
        lemma_joined_one(cbor_constr(121, seq![pa, qa]));
        lemma_joined_one(cbor_constr(121, seq![pb, qb]));
        assert((asset_cbor(a) + x).skip(6) =~= pa + (qa + (end + x)));
        assert((asset_cbor(b) + y).skip(6) =~= pb + (qb + (end + y)));
        lemma_bytestring_read_back(policy_a, policy_b, qa + (end + x), qb + (end + y));
        lemma_bytestring_read_back(name_a, name_b, end + x, end + y);
        assert(x =~= (end + x).skip(2));
        assert(y =~= (end + y).skip(2));
    } else {
        let n = none_cbor(EmptyArray::Definite).len() as int;
        assert(x =~= (asset_cbor(a) + x).skip(n));
        assert(y =~= (asset_cbor(b) + y).skip(n));
    }
}

proof fn lemma_oracle_layout(message: OracleMessageModel)
    ensures
        oracle_message_cbor(message).skip(3) == cbor_bytestring(message.channel_id) + (prices_cbor(
            EmptyArray::Definite,
            message.prices_and_age,
        ) + (cbor_uint(message.timestamp as nat) + (rewards_cbor(message.rewards) + (asset_cbor(
            message.reward_asset,
        ) + seq![0xffu8])))),
{
    let c = cbor_bytestring(message.channel_id);
    let p = prices_cbor(EmptyArray::Definite, message.prices_and_age);
    let t = cbor_uint(message.timestamp as nat);
    let r = rewards_cbor(message.rewards);
    let x = asset_cbor(message.reward_asset);
    lemma_tag_heads();
    lemma_joined_five(c, p, t, r, x);
    assert(oracle_message_cbor(message).skip(3) =~= c + (p + (t + (r + (x + seq![0xffu8])))));
}

/// Two oracle messages with one encoding are the same message.
pub proof fn lemma_oracle_cbor_injective(a: OracleMessageModel, b: OracleMessageModel)
    requires
        a.channel_id.len() <= 64,
        b.channel_id.len() <= 64,
        a.reward_asset matches Some((p, n)) ==> p.len() <= 64 && n.len() <= 64,
        b.reward_asset matches Some((p, n)) ==> p.len() <= 64 && n.len() <= 64,
        oracle_message_cbor(a) == oracle_message_cbor(b),
    ensures
        a == b,
{
    let style = EmptyArray::Definite;
    let end = seq![0xffu8];
    lemma_oracle_layout(a);
    lemma_oracle_layout(b);
    let after_rewards_a = asset_cbor(a.reward_asset) + end;
    let after_rewards_b = asset_cbor(b.reward_asset) + end;
    let after_time_a = rewards_cbor(a.rewards) + after_rewards_a;
    let after_time_b = rewards_cbor(b.rewards) + after_rewards_b;
    let after_prices_a = cbor_uint(a.timestamp as nat) + after_time_a;
    let after_prices_b = cbor_uint(b.timestamp as nat) + after_time_b;
    lemma_bytestring_read_back(
        a.channel_id,
        b.channel_id,
        prices_cbor(style, a.prices_and_age) + after_prices_a,
        prices_cbor(style, b.prices_and_age) + after_prices_b,
    );
    lemma_prices_read_back(
        style,
        a.prices_and_age,
        b.prices_and_age,
        after_prices_a,
        after_prices_b,
    );
    lemma_head_read_back(
        0x00,
        a.timestamp as nat,
        b.timestamp as nat,
        after_time_a,
        after_time_b,
    );
    lemma_rewards_read_back(a.rewards, b.rewards, after_rewards_a, after_rewards_b);
    lemma_asset_read_back(a.reward_asset, b.reward_asset, end, end);
}

} // verus!
