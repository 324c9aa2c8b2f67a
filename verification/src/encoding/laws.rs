//! What the encodings are, byte by byte.
use crate::encoding::cbor::{
    big_endian, cbor_bytestring, cbor_constr, cbor_head, cbor_uint, joined, lemma_joined_push,
};
use crate::encoding::entries::{
    lemma_joined_one, lemma_joined_two, price_cbor, prices_cbor, reward_cbor, rewards_cbor, EmptyArray,
};
use crate::oracle::pallet as unstaked;
use crate::pallet::messages::{
    asset_cbor, oracle_message_cbor, staking_message_cbor, withdrawal_message_cbor,
    OracleMessageModel, StakingMessageModel, WithdrawalMessageModel,
};
use crate::staking_participation::types::{certificate_cbor, CertificateModel};
use vstd::prelude::*;

verus! {

// ---------------------------------------------------------------------------------------------
// Numbers and byte strings

/// An unsigned integer takes the fewest bytes: itself below 24, else a byte that tells its width and
/// then its bytes, the most significant first.
pub proof fn lemma_uint_bytes(n: u64)
    ensures
        n < 24 ==> cbor_uint(n as nat) == seq![n as u8],
        24 <= n <= 0xff ==> cbor_uint(n as nat) == seq![0x18u8, n as u8],
        0x100 <= n <= 0xffff ==> cbor_uint(n as nat) == seq![
            0x19u8,
            (n / 0x100) as u8,
            (n % 0x100) as u8,
        ],
        0x1_0000 <= n <= 0xffff_ffff ==> cbor_uint(n as nat) == seq![
            0x1au8,
            (n / 0x100_0000) as u8,
            (n / 0x1_0000 % 0x100) as u8,
            (n / 0x100 % 0x100) as u8,
            (n % 0x100) as u8,
        ],
        0x1_0000_0000 <= n ==> cbor_uint(n as nat) == seq![
            0x1bu8,
            (n / 0x100_0000_0000_0000) as u8,
            (n / 0x1_0000_0000_0000 % 0x100) as u8,
            (n / 0x100_0000_0000 % 0x100) as u8,
            (n / 0x1_0000_0000 % 0x100) as u8,
            (n / 0x100_0000 % 0x100) as u8,
            (n / 0x1_0000 % 0x100) as u8,
            (n / 0x100 % 0x100) as u8,
            (n % 0x100) as u8,
        ],
{
    if 24 <= n <= 0xff {
        lemma_narrow_bytes(n as nat);
        assert(cbor_uint(n as nat) =~= seq![0x18u8, n as u8]);
    } else if 0xff < n <= 0xffff {
        lemma_narrow_bytes(n as nat);
        assert(cbor_uint(n as nat) =~= seq![0x19u8, (n / 0x100) as u8, (n % 0x100) as u8]);
    } else if 0xffff < n <= 0xffff_ffff {
        lemma_four_bytes(n as nat);
        assert(cbor_uint(n as nat) =~= seq![
            0x1au8,
            (n / 0x100_0000) as u8,
            (n / 0x1_0000 % 0x100) as u8,
            (n / 0x100 % 0x100) as u8,
            (n % 0x100) as u8,
        ]);
    } else if 0xffff_ffff < n {
        let high = n as nat / 0x1_0000_0000;
        lemma_four_bytes(high);
        lemma_eight_split(n as nat);
        lemma_quotients(n as nat);
        assert(cbor_uint(n as nat) =~= seq![
            0x1bu8,
            (n / 0x100_0000_0000_0000) as u8,
            (n / 0x1_0000_0000_0000 % 0x100) as u8,
            (n / 0x100_0000_0000 % 0x100) as u8,
            (n / 0x1_0000_0000 % 0x100) as u8,
            (n / 0x100_0000 % 0x100) as u8,
            (n / 0x1_0000 % 0x100) as u8,
            (n / 0x100 % 0x100) as u8,
            (n % 0x100) as u8,
        ]);
    }
}

proof fn lemma_narrow_bytes(n: nat)
    ensures
        big_endian(n, 1) == seq![(n % 0x100) as u8],
        big_endian(n, 2) == seq![(n / 0x100 % 0x100) as u8, (n % 0x100) as u8],
{
    reveal_with_fuel(big_endian, 3);
    assert(big_endian(n, 1) =~= seq![(n % 0x100) as u8]);
    assert(big_endian(n, 2) =~= seq![(n / 0x100 % 0x100) as u8, (n % 0x100) as u8]);
}

proof fn lemma_four_bytes(n: nat)
    ensures
        big_endian(n, 4) == seq![
            (n / 0x100_0000 % 0x100) as u8,
            (n / 0x1_0000 % 0x100) as u8,
            (n / 0x100 % 0x100) as u8,
            (n % 0x100) as u8,
        ],
{
    let a = n / 256;
    let b = a / 256;
    lemma_narrow_bytes(b);
    assert(b == n / 0x1_0000);
    assert(b / 256 == n / 0x100_0000);
    assert(big_endian(a, 3) == big_endian(b, 2).push((a % 256) as u8));
    assert(big_endian(n, 4) == big_endian(a, 3).push((n % 256) as u8));
    assert(big_endian(n, 4) =~= seq![
        (n / 0x100_0000 % 0x100) as u8,
        (n / 0x1_0000 % 0x100) as u8,
        (n / 0x100 % 0x100) as u8,
        (n % 0x100) as u8,
    ]);
}

proof fn lemma_eight_split(n: nat)
    ensures
        big_endian(n, 8) == big_endian(n / 0x1_0000_0000, 4) + seq![
            (n / 0x100_0000 % 0x100) as u8,
            (n / 0x1_0000 % 0x100) as u8,
            (n / 0x100 % 0x100) as u8,
            (n % 0x100) as u8,
        ],
{
    let a = n / 256;
    let b = a / 256;
    let c = b / 256;
    let d = c / 256;
    assert(b == n / 0x1_0000);
    assert(c == n / 0x100_0000);
    assert(d == n / 0x1_0000_0000);
    assert(big_endian(c, 5) == big_endian(d, 4).push((c % 256) as u8));
    assert(big_endian(b, 6) == big_endian(c, 5).push((b % 256) as u8));
    assert(big_endian(a, 7) == big_endian(b, 6).push((a % 256) as u8));
    assert(big_endian(n, 8) == big_endian(a, 7).push((n % 256) as u8));
    assert(big_endian(n, 8) =~= big_endian(d, 4) + seq![
        (c % 256) as u8,
        (b % 256) as u8,
        (a % 256) as u8,
        (n % 256) as u8,
    ]);
}

proof fn lemma_quotients(n: nat)
    requires
        n <= u64::MAX,
    ensures
        n / 0x1_0000_0000 / 0x100 == n / 0x100_0000_0000,
        n / 0x1_0000_0000 / 0x1_0000 == n / 0x1_0000_0000_0000,
        n / 0x1_0000_0000 / 0x100_0000 == n / 0x100_0000_0000_0000,
        n / 0x100_0000_0000_0000 < 256,
{
}

/// A byte string of less than 256 bytes is its length and its bytes.
pub proof fn lemma_bytestring_bytes(bytes: Seq<u8>)
    ensures
        bytes.len() < 24 ==> cbor_bytestring(bytes) == seq![(0x40 + bytes.len()) as u8] + bytes,
        24 <= bytes.len() < 256 ==> cbor_bytestring(bytes) == seq![0x58u8, bytes.len() as u8] + bytes,
{
    reveal_with_fuel(big_endian, 2);
    if 24 <= bytes.len() < 256 {
        assert(cbor_bytestring(bytes) =~= seq![0x58u8, bytes.len() as u8] + bytes);
    }
}

// ---------------------------------------------------------------------------------------------
// Entries

proof fn lemma_constr_bytes(fields: Seq<Seq<u8>>)
    ensures
        cbor_constr(121, fields) == seq![0xd8u8, 0x79u8, 0x9fu8] + joined(fields) + seq![0xffu8],
        cbor_constr(122, fields) == seq![0xd8u8, 0x7au8, 0x9fu8] + joined(fields) + seq![0xffu8],
        cbor_head(0xc0, 122) == seq![0xd8u8, 0x7au8],
{
    reveal_with_fuel(big_endian, 2);
    assert(cbor_head(0xc0, 121) =~= seq![0xd8u8, 0x79u8]);
    assert(cbor_head(0xc0, 122) =~= seq![0xd8u8, 0x7au8]);
    assert(cbor_constr(121, fields) =~= seq![0xd8u8, 0x79u8, 0x9fu8] + joined(fields)
        + seq![0xffu8]);
    assert(cbor_constr(122, fields) =~= seq![0xd8u8, 0x7au8, 0x9fu8] + joined(fields)
        + seq![0xffu8]);
}

/// A price is written with its age; a missing one as the empty constructor with tag 122.
pub proof fn lemma_price_bytes(style: EmptyArray, price: u64, age: u16)
    ensures
        price_cbor(style, Some((price, age))) == seq![0xd8u8, 0x79u8, 0x9fu8] + cbor_uint(
            price as nat,
        ) + cbor_uint(age as nat) + seq![0xffu8],
        price_cbor(EmptyArray::Definite, None) == seq![0xd8u8, 0x7au8, 0x80u8],
        price_cbor(EmptyArray::Indefinite, None) == seq![0xd8u8, 0x7au8, 0x9fu8, 0xffu8],
{
    let p = cbor_uint(price as nat);
    let a = cbor_uint(age as nat);
    lemma_joined_two(p, a);
    lemma_constr_bytes(seq![p, a]);
    lemma_constr_bytes(Seq::empty());
    assert(price_cbor(style, Some((price, age))) =~= seq![0xd8u8, 0x79u8, 0x9fu8] + p + a
        + seq![0xffu8]);
    assert(price_cbor(EmptyArray::Definite, None) =~= seq![0xd8u8, 0x7au8, 0x80u8]);
    assert(price_cbor(EmptyArray::Indefinite, None) =~= seq![0xd8u8, 0x7au8, 0x9fu8, 0xffu8]);
}

/// A reward is written as the key of the node and its multiplier.
pub proof fn lemma_reward_bytes(key: [u8; 32], multiplier: u16)
    ensures
        reward_cbor((key, multiplier)) == seq![0x9fu8, 0x58u8, 0x20u8] + key@ + cbor_uint(
            multiplier as nat,
        ) + seq![0xffu8],
{
    lemma_joined_two(cbor_bytestring(key@), cbor_uint(multiplier as nat));
    lemma_bytestring_bytes(key@);
    assert(reward_cbor((key, multiplier)) =~= seq![0x9fu8, 0x58u8, 0x20u8] + key@ + cbor_uint(
        multiplier as nat,
    ) + seq![0xffu8]);
}

/// A list starts with one byte and ends with another; a further entry is written before the end.
pub proof fn lemma_entries_bytes(
    style: EmptyArray,
    prices: Seq<Option<(u64, u16)>>,
    price: Option<(u64, u16)>,
    rewards: Seq<([u8; 32], u16)>,
    reward: ([u8; 32], u16),
)
    ensures
        prices_cbor(style, Seq::empty()) == seq![0x9fu8, 0xffu8],
        rewards_cbor(Seq::empty()) == seq![0x9fu8, 0xffu8],
        prices_cbor(style, prices.push(price)) == prices_cbor(style, prices).drop_last()
            + price_cbor(style, price) + seq![0xffu8],
        rewards_cbor(rewards.push(reward)) == rewards_cbor(rewards).drop_last() + reward_cbor(reward)
            + seq![0xffu8],
{
    let p = |entry: Option<(u64, u16)>| price_cbor(style, entry);
    let r = |reward: ([u8; 32], u16)| reward_cbor(reward);
    assert(Seq::<Option<(u64, u16)>>::empty().map_values(p) =~= Seq::<Seq<u8>>::empty());
    assert(Seq::<([u8; 32], u16)>::empty().map_values(r) =~= Seq::<Seq<u8>>::empty());
    assert(prices_cbor(style, Seq::empty()) =~= seq![0x9fu8, 0xffu8]);
    assert(rewards_cbor(Seq::empty()) =~= seq![0x9fu8, 0xffu8]);
    assert(prices.push(price).map_values(p) =~= prices.map_values(p).push(p(price)));
    assert(rewards.push(reward).map_values(r) =~= rewards.map_values(r).push(r(reward)));
    lemma_joined_push(prices.map_values(p), p(price));
    lemma_joined_push(rewards.map_values(r), r(reward));
    assert(prices_cbor(style, prices.push(price)) =~= prices_cbor(style, prices).drop_last()
        + price_cbor(style, price) + seq![0xffu8]);
    assert(rewards_cbor(rewards.push(reward)) =~= rewards_cbor(rewards).drop_last() + reward_cbor(
        reward,
    ) + seq![0xffu8]);
}

// ---------------------------------------------------------------------------------------------
// Messages

proof fn lemma_joined_three(a: Seq<u8>, b: Seq<u8>, c: Seq<u8>)
    ensures
        joined(seq![a, b, c]) == a + b + c,
{
    lemma_joined_two(a, b);
    lemma_joined_push(seq![a, b], c);
    assert(seq![a, b].push(c) =~= seq![a, b, c]);
}

proof fn lemma_joined_four(a: Seq<u8>, b: Seq<u8>, c: Seq<u8>, d: Seq<u8>)
    ensures
        joined(seq![a, b, c, d]) == a + b + c + d,
{
    lemma_joined_three(a, b, c);
    lemma_joined_push(seq![a, b, c], d);
    assert(seq![a, b, c].push(d) =~= seq![a, b, c, d]);
}

proof fn lemma_joined_five(a: Seq<u8>, b: Seq<u8>, c: Seq<u8>, d: Seq<u8>, e: Seq<u8>)
    ensures
        joined(seq![a, b, c, d, e]) == a + b + c + d + e,
{
    lemma_joined_four(a, b, c, d);
    lemma_joined_push(seq![a, b, c, d], e);
    assert(seq![a, b, c, d].push(e) =~= seq![a, b, c, d, e]);
}

/// The asset of rewards is written as its policy and its name; a missing one as the empty constructor
/// with tag 122.
pub proof fn lemma_asset_bytes(policy_id: Seq<u8>, asset_name: Seq<u8>)
    ensures
        asset_cbor(Some((policy_id, asset_name))) == seq![
            0xd8u8,
            0x79u8,
            0x9fu8,
            0xd8u8,
            0x79u8,
            0x9fu8,
        ] + cbor_bytestring(policy_id) + cbor_bytestring(asset_name) + seq![0xffu8, 0xffu8],
        asset_cbor(None) == seq![0xd8u8, 0x7au8, 0x80u8],
{
    let p = cbor_bytestring(policy_id);
    let n = cbor_bytestring(asset_name);
    let inner = cbor_constr(121, seq![p, n]);
    lemma_joined_two(p, n);
    lemma_joined_one(inner);
    lemma_constr_bytes(seq![p, n]);
    lemma_constr_bytes(seq![inner]);
    assert(asset_cbor(Some((policy_id, asset_name))) =~= seq![
        0xd8u8,
        0x79u8,
        0x9fu8,
        0xd8u8,
        0x79u8,
        0x9fu8,
    ] + p + n + seq![0xffu8, 0xffu8]);
    assert(asset_cbor(None) =~= seq![0xd8u8, 0x7au8, 0x80u8]);
}

/// An oracle message is written as its channel, its prices, its time, its rewards and their asset, in
/// this order, in a constructor with tag 121.
pub proof fn lemma_oracle_message_bytes(m: OracleMessageModel)
    ensures
        oracle_message_cbor(m) == seq![0xd8u8, 0x79u8, 0x9fu8] + cbor_bytestring(m.channel_id)
            + prices_cbor(EmptyArray::Definite, m.prices_and_age) + cbor_uint(m.timestamp as nat)
            + rewards_cbor(m.rewards) + asset_cbor(m.reward_asset) + seq![0xffu8],
{
    let c = cbor_bytestring(m.channel_id);
    let p = prices_cbor(EmptyArray::Definite, m.prices_and_age);
    let t = cbor_uint(m.timestamp as nat);
    let r = rewards_cbor(m.rewards);
    let a = asset_cbor(m.reward_asset);
    lemma_joined_five(c, p, t, r, a);
    lemma_constr_bytes(seq![c, p, t, r, a]);
    assert(oracle_message_cbor(m) =~= seq![0xd8u8, 0x79u8, 0x9fu8] + c + p + t + r + a
        + seq![0xffu8]);
}

/// An oracle message of nodes without stakes is written as its channel, its prices, its time and its
/// rewards, in this order, in a constructor with tag 121.
pub proof fn lemma_unstaked_message_bytes(m: unstaked::OracleMessageModel)
    ensures
        unstaked::oracle_message_cbor(m) == seq![0xd8u8, 0x79u8, 0x9fu8] + cbor_bytestring(
            m.channel_id,
        ) + prices_cbor(EmptyArray::Indefinite, m.prices_and_age) + cbor_uint(m.timestamp as nat)
            + rewards_cbor(m.rewards) + seq![0xffu8],
{
    let c = cbor_bytestring(m.channel_id);
    let p = prices_cbor(EmptyArray::Indefinite, m.prices_and_age);
    let t = cbor_uint(m.timestamp as nat);
    let r = rewards_cbor(m.rewards);
    lemma_joined_four(c, p, t, r);
    lemma_constr_bytes(seq![c, p, t, r]);
    assert(unstaked::oracle_message_cbor(m) =~= seq![0xd8u8, 0x79u8, 0x9fu8] + c + p + t + r
        + seq![0xffu8]);
}

/// A staking message is written as the admin key, the aggregation key, the amount and the lock, in
/// this order, in a constructor with tag 121.
pub proof fn lemma_staking_message_bytes(m: StakingMessageModel)
    ensures
        staking_message_cbor(m) == seq![0xd8u8, 0x79u8, 0x9fu8] + cbor_bytestring(
            m.cardano_pkh_admin,
        ) + cbor_bytestring(m.cardano_pkh_aggregation) + cbor_uint(m.stake_amount as nat)
            + cbor_uint(m.lock_until as nat) + seq![0xffu8],
{
    let a = cbor_bytestring(m.cardano_pkh_admin);
    let g = cbor_bytestring(m.cardano_pkh_aggregation);
    let s = cbor_uint(m.stake_amount as nat);
    let l = cbor_uint(m.lock_until as nat);
    lemma_joined_four(a, g, s, l);
    lemma_constr_bytes(seq![a, g, s, l]);
    assert(staking_message_cbor(m) =~= seq![0xd8u8, 0x79u8, 0x9fu8] + a + g + s + l
        + seq![0xffu8]);
}

/// A withdrawal message is written as the admin key and the amount, in this order, in a constructor
/// with tag 121.
pub proof fn lemma_withdrawal_message_bytes(m: WithdrawalMessageModel)
    ensures
        withdrawal_message_cbor(m) == seq![0xd8u8, 0x79u8, 0x9fu8] + cbor_bytestring(
            m.cardano_pkh_admin,
        ) + cbor_uint(m.approved_amount as nat) + seq![0xffu8],
{
    let a = cbor_bytestring(m.cardano_pkh_admin);
    let n = cbor_uint(m.approved_amount as nat);
    lemma_joined_two(a, n);
    lemma_constr_bytes(seq![a, n]);
    assert(withdrawal_message_cbor(m) =~= seq![0xd8u8, 0x79u8, 0x9fu8] + a + n + seq![0xffu8]);
}

/// A certificate of an operator is written as a list of its account, its two keys, the sixteen bytes
/// of its stake, its expiry and its nonce, in this order.
pub proof fn lemma_certificate_bytes(c: CertificateModel)
    ensures
        certificate_cbor(c) == seq![0x9fu8] + cbor_bytestring(c.operator_account) + cbor_bytestring(
            c.cardano_stake_key_hash,
        ) + cbor_bytestring(c.sidechain_pubkey) + cbor_bytestring(
            big_endian(c.stake_amount as nat, 16),
        ) + cbor_uint(c.expiry as nat) + cbor_uint(c.nonce as nat) + seq![0xffu8],
{
    let a = cbor_bytestring(c.operator_account);
    let k = cbor_bytestring(c.cardano_stake_key_hash);
    let p = cbor_bytestring(c.sidechain_pubkey);
    let s = cbor_bytestring(big_endian(c.stake_amount as nat, 16));
    let e = cbor_uint(c.expiry as nat);
    let n = cbor_uint(c.nonce as nat);
    lemma_joined_five(a, k, p, s, e);
    lemma_joined_push(seq![a, k, p, s, e], n);
    assert(seq![a, k, p, s, e].push(n) =~= seq![a, k, p, s, e, n]);
    assert(certificate_cbor(c) =~= seq![0x9fu8] + a + k + p + s + e + n + seq![0xffu8]);
}

/// The last byte of a number is its remainder by 256, and the others are the bytes of its quotient.
pub proof fn lemma_big_endian_bytes(n: nat, width: nat)
    ensures
        big_endian(n, width).len() == width,
        width > 0 ==> big_endian(n, width).last() == n % 256 && big_endian(n, width).drop_last()
            == big_endian(n / 256, (width - 1) as nat),
{
    crate::encoding::cbor::lemma_big_endian_len(n, width);
    if width > 0 {
        assert(big_endian(n, width).drop_last() =~= big_endian(n / 256, (width - 1) as nat));
    }
}

} // verus!
