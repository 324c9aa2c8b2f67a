//! The price and reward lists of an oracle message.
use crate::encoding::cbor::{
    cbor_bytestring, cbor_constr, cbor_empty_constr, cbor_head, cbor_list, cbor_uint, joined,
    lemma_bytestring_read_back, lemma_head_read_back, lemma_joined_push, lemma_list_read_back, put_array,
    put_begin_array, put_bytes, put_end, put_tag, put_u16, put_u32, put_u64, self_delimiting,
};
use vstd::prelude::*;

verus! {

/// How a missing entry is written: with a definite or with an indefinite empty array.
#[derive(Clone, Copy, Debug, PartialEq, Eq, Structural)]
pub enum EmptyArray {
    Definite,
    Indefinite,
}

pub open spec fn none_cbor(style: EmptyArray) -> Seq<u8> {
    match style {
        EmptyArray::Definite => cbor_empty_constr(122),
        EmptyArray::Indefinite => cbor_constr(122, Seq::empty()),
    }
}

/// A price and its age.
pub open spec fn price_cbor(style: EmptyArray, entry: Option<(u64, u16)>) -> Seq<u8> {
    match entry {
        Some((price, age)) => cbor_constr(121, seq![cbor_uint(price as nat), cbor_uint(age as nat)]),
        None => none_cbor(style),
    }
}

/// A rewarded key and its multiplier.
pub open spec fn reward_cbor(reward: ([u8; 32], u16)) -> Seq<u8> {
    cbor_list(seq![cbor_bytestring(reward.0@), cbor_uint(reward.1 as nat)])
}

pub open spec fn prices_cbor(style: EmptyArray, prices: Seq<Option<(u64, u16)>>) -> Seq<u8> {
    cbor_list(prices.map_values(|entry: Option<(u64, u16)>| price_cbor(style, entry)))
}

pub open spec fn rewards_cbor(rewards: Seq<([u8; 32], u16)>) -> Seq<u8> {
    cbor_list(rewards.map_values(|reward: ([u8; 32], u16)| reward_cbor(reward)))
}

pub proof fn lemma_joined_two(a: Seq<u8>, b: Seq<u8>)
    ensures
        joined(seq![a, b]) == a + b,
{
    lemma_joined_push(Seq::empty(), a);
    lemma_joined_push(seq![a], b);
    assert(Seq::<Seq<u8>>::empty().push(a) =~= seq![a]);
    assert(seq![a].push(b) =~= seq![a, b]);
    assert(joined(Seq::empty()) + a =~= a);
}

pub proof fn lemma_joined_one(a: Seq<u8>)
    ensures
        joined(seq![a]) == a,
{
    lemma_joined_push(Seq::empty(), a);
    assert(Seq::<Seq<u8>>::empty().push(a) =~= seq![a]);
    assert(joined(Seq::empty()) + a =~= a);
}

/// Appends an unsigned integer, by the narrower writer where it fits.
pub(crate) fn put_amount(buf: &mut Vec<u8>, n: u64)
    ensures
        final(buf)@ == old(buf)@ + cbor_uint(n as nat),
{
    if n <= u32::MAX as u64 {
        put_u32(buf, n as u32);
    } else {
        put_u64(buf, n);
    }
}

pub(crate) fn put_none(buf: &mut Vec<u8>, style: EmptyArray)
    ensures
        final(buf)@ == old(buf)@ + none_cbor(style),
{
    put_tag(buf, 122);
    match style {
        EmptyArray::Definite => {
            put_array(buf, 0);
        },
        EmptyArray::Indefinite => {
            put_begin_array(buf);
            put_end(buf);
        },
    }
    assert(buf@ =~= old(buf)@ + none_cbor(style));
}

fn put_price(buf: &mut Vec<u8>, style: EmptyArray, entry: &Option<(u64, u16)>)
    ensures
        final(buf)@ == old(buf)@ + price_cbor(style, *entry),
{
    match entry {
        Some((price, age)) => {
            put_tag(buf, 121);
            put_begin_array(buf);
            put_amount(buf, *price);
            put_u16(buf, *age);
            put_end(buf);
            proof {
                lemma_joined_two(cbor_uint(*price as nat), cbor_uint(*age as nat));
                assert(buf@ =~= old(buf)@ + price_cbor(style, *entry));
            }
        },
        None => {
            put_none(buf, style);
        },
    }
}

pub(crate) fn put_prices(buf: &mut Vec<u8>, style: EmptyArray, prices: &Vec<Option<(u64, u16)>>)
    ensures
        final(buf)@ == old(buf)@ + prices_cbor(style, prices@),
{
    let ghost start = buf@;
    let ghost encode = |entry: Option<(u64, u16)>| price_cbor(style, entry);
    put_begin_array(buf);
    assert(prices@.take(0).map_values(encode) =~= Seq::<Seq<u8>>::empty());
    assert(buf@ =~= start + seq![0x9fu8] + joined(prices@.take(0).map_values(encode)));
    for i in 0..prices.len()
        invariant
            encode == (|entry: Option<(u64, u16)>| price_cbor(style, entry)),
            buf@ == start + seq![0x9fu8] + joined(prices@.take(i as int).map_values(encode)),
    {
        put_price(buf, style, &prices[i]);
        proof {
            let before = prices@.take(i as int).map_values(encode);
            lemma_joined_push(before, encode(prices@[i as int]));
            assert(prices@.take(i + 1).map_values(encode) =~= before.push(
                encode(prices@[i as int]),
            ));
            assert(buf@ =~= start + seq![0x9fu8] + joined(prices@.take(i + 1).map_values(encode)));
        }
    }
    put_end(buf);
    assert(prices@.take(prices@.len() as int) =~= prices@);
    assert(buf@ =~= start + prices_cbor(style, prices@));
}

fn put_reward(buf: &mut Vec<u8>, reward: &([u8; 32], u16))
    ensures
        final(buf)@ == old(buf)@ + reward_cbor(*reward),
{
    put_begin_array(buf);
    put_bytes(buf, reward.0.as_slice());
    put_u16(buf, reward.1);
    put_end(buf);
    proof {
        lemma_joined_two(cbor_bytestring(reward.0@), cbor_uint(reward.1 as nat));
        assert(buf@ =~= old(buf)@ + reward_cbor(*reward));
    }
}

pub(crate) fn put_rewards(buf: &mut Vec<u8>, rewards: &Vec<([u8; 32], u16)>)
    ensures
        final(buf)@ == old(buf)@ + rewards_cbor(rewards@),
{
    let ghost start = buf@;
    let ghost encode = |reward: ([u8; 32], u16)| reward_cbor(reward);
    put_begin_array(buf);
    assert(rewards@.take(0).map_values(encode) =~= Seq::<Seq<u8>>::empty());
    assert(buf@ =~= start + seq![0x9fu8] + joined(rewards@.take(0).map_values(encode)));
    for i in 0..rewards.len()
        invariant
            encode == (|reward: ([u8; 32], u16)| reward_cbor(reward)),
            buf@ == start + seq![0x9fu8] + joined(rewards@.take(i as int).map_values(encode)),
    {
        put_reward(buf, &rewards[i]);
        proof {
            let before = rewards@.take(i as int).map_values(encode);
            lemma_joined_push(before, encode(rewards@[i as int]));
            assert(rewards@.take(i + 1).map_values(encode) =~= before.push(
                encode(rewards@[i as int]),
            ));
            assert(buf@ =~= start + seq![0x9fu8] + joined(rewards@.take(i + 1).map_values(encode)));
        }
    }
    put_end(buf);
    assert(rewards@.take(rewards@.len() as int) =~= rewards@);
    assert(buf@ =~= start + rewards_cbor(rewards@));
}

// ---------------------------------------------------------------------------------------------
// Entries are read back

pub proof fn lemma_tag_heads()
    ensures
        cbor_head(0xc0, 121) == seq![0xd8u8, 0x79u8],
        cbor_head(0xc0, 122) == seq![0xd8u8, 0x7au8],
        cbor_head(0x80, 0) == seq![0x80u8],
{
    reveal_with_fuel(crate::encoding::cbor::big_endian, 2);
    assert(crate::encoding::cbor::big_endian(121, 1) =~= seq![0x79u8]);
    assert(crate::encoding::cbor::big_endian(122, 1) =~= seq![0x7au8]);
    assert(cbor_head(0xc0, 121) =~= seq![0xd8u8, 0x79u8]);
    assert(cbor_head(0xc0, 122) =~= seq![0xd8u8, 0x7au8]);
}

proof fn lemma_price_layout(style: EmptyArray, entry: Option<(u64, u16)>, rest: Seq<u8>)
    ensures
        (price_cbor(style, entry) + rest)[0] == 0xd8,
        (price_cbor(style, entry) + rest)[1] == (if entry is Some {
            0x79u8
        } else {
            0x7au8
        }),
        entry matches Some((price, age)) ==> (price_cbor(style, entry) + rest).skip(3) == cbor_uint(
            price as nat,
        ) + (cbor_uint(age as nat) + (seq![0xffu8] + rest)),
        entry is None ==> price_cbor(style, entry) == none_cbor(style),
{
    lemma_tag_heads();
    match entry {
        Some((price, age)) => {
            lemma_joined_two(cbor_uint(price as nat), cbor_uint(age as nat));
            assert((price_cbor(style, entry) + rest).skip(3) =~= cbor_uint(price as nat) + (
            cbor_uint(age as nat) + (seq![0xffu8] + rest)));
        },
        None => {},
    }
}

proof fn lemma_price_read_back(
    style: EmptyArray,
    a: Option<(u64, u16)>,
    b: Option<(u64, u16)>,
    x: Seq<u8>,
    y: Seq<u8>,
)
    requires
        price_cbor(style, a) + x == price_cbor(style, b) + y,
    ensures
        a == b,
        x == y,
{
    lemma_price_layout(style, a, x);
    lemma_price_layout(style, b, y);
    assert(a is Some == b is Some);
    if a is Some {
        let (p, g) = a->0;
        let (q, h) = b->0;
        let after_a = cbor_uint(g as nat) + (seq![0xffu8] + x);
        let after_b = cbor_uint(h as nat) + (seq![0xffu8] + y);
        lemma_head_read_back(0x00, p as nat, q as nat, after_a, after_b);
        lemma_head_read_back(0x00, g as nat, h as nat, seq![0xffu8] + x, seq![0xffu8] + y);
        assert(x =~= (seq![0xffu8] + x).skip(1));
        assert(y =~= (seq![0xffu8] + y).skip(1));
    } else {
        let n = none_cbor(style).len() as int;
        assert(x =~= (price_cbor(style, a) + x).skip(n));
        assert(y =~= (price_cbor(style, b) + y).skip(n));
    }
}

proof fn lemma_prices_self_delimiting(style: EmptyArray)
    ensures
        self_delimiting(
            |entry: Option<(u64, u16)>| price_cbor(style, entry),
            |entry: Option<(u64, u16)>| true,
        ),
{
    let encode = |entry: Option<(u64, u16)>| price_cbor(style, entry);
    assert forall|a: Option<(u64, u16)>, b: Option<(u64, u16)>, x: Seq<u8>, y: Seq<u8>|
        #![trigger encode(a) + x, encode(b) + y]
        encode(a) + x == encode(b) + y implies a == b && x == y by {
        lemma_price_read_back(style, a, b, x, y);
    }
    assert forall|a: Option<(u64, u16)>| (#[trigger] encode(a)).len() > 0 && encode(a)[0]
        != 0xff by {
        lemma_price_layout(style, a, Seq::empty());
        lemma_tag_heads();
        assert(encode(a) + Seq::<u8>::empty() =~= encode(a));
    }
}

proof fn lemma_rewards_self_delimiting()
    ensures
        self_delimiting(
            |reward: ([u8; 32], u16)| reward_cbor(reward),
            |reward: ([u8; 32], u16)| true,
        ),
{
    let encode = |reward: ([u8; 32], u16)| reward_cbor(reward);
    assert forall|a: ([u8; 32], u16), b: ([u8; 32], u16), x: Seq<u8>, y: Seq<u8>|
        #![trigger encode(a) + x, encode(b) + y]
        encode(a) + x == encode(b) + y implies a == b && x == y by {
        lemma_joined_two(cbor_bytestring(a.0@), cbor_uint(a.1 as nat));
        lemma_joined_two(cbor_bytestring(b.0@), cbor_uint(b.1 as nat));
        let after_a = cbor_uint(a.1 as nat) + (seq![0xffu8] + x);
        let after_b = cbor_uint(b.1 as nat) + (seq![0xffu8] + y);
        assert((encode(a) + x).skip(1) =~= cbor_bytestring(a.0@) + after_a);
        assert((encode(b) + y).skip(1) =~= cbor_bytestring(b.0@) + after_b);
        lemma_bytestring_read_back(a.0@, b.0@, after_a, after_b);
        lemma_head_read_back(
            0x00,
            a.1 as nat,
            b.1 as nat,
            seq![0xffu8] + x,
            seq![0xffu8] + y,
        );
        assert(x =~= (seq![0xffu8] + x).skip(1));
        assert(y =~= (seq![0xffu8] + y).skip(1));
        assert forall|i: int| 0 <= i < 32 implies a.0[i] == b.0[i] by {
            assert(a.0@[i] == b.0@[i]);
        }
        assert(a.0 =~= b.0);
    }
    assert forall|a: ([u8; 32], u16)| (#[trigger] encode(a)).len() > 0 && encode(a)[0] != 0xff by {
        assert(encode(a)[0] == 0x9f);
    }
}

/// A price list is read back, with what follows it.
pub proof fn lemma_prices_read_back(
    style: EmptyArray,
    a: Seq<Option<(u64, u16)>>,
    b: Seq<Option<(u64, u16)>>,
    x: Seq<u8>,
    y: Seq<u8>,
)
    requires
        prices_cbor(style, a) + x == prices_cbor(style, b) + y,
    ensures
        a == b,
        x == y,
{
    lemma_prices_self_delimiting(style);
    lemma_list_read_back(
        |entry: Option<(u64, u16)>| price_cbor(style, entry),
        |entry: Option<(u64, u16)>| true,
        a,
        b,
        x,
        y,
    );
}

/// A reward list is read back, with what follows it.
pub proof fn lemma_rewards_read_back(
    a: Seq<([u8; 32], u16)>,
    b: Seq<([u8; 32], u16)>,
    x: Seq<u8>,
    y: Seq<u8>,
)
    requires
        rewards_cbor(a) + x == rewards_cbor(b) + y,
    ensures
        a == b,
        x == y,
{
    lemma_rewards_self_delimiting();
    lemma_list_read_back(
        |reward: ([u8; 32], u16)| reward_cbor(reward),
        |reward: ([u8; 32], u16)| true,
        a,
        b,
        x,
        y,
    );
}

} // verus!
