//! The CBOR items that messages are made of, written by `minicbor`.
use minicbor::data::Tag;
use minicbor::encode::Encoder;
use vstd::prelude::*;

verus! {

// ---------------------------------------------------------------------------------------------
// Encodings

/// The `width` bytes of `n`, the most significant first.
pub open spec fn big_endian(n: nat, width: nat) -> Seq<u8>
    decreases width,
{
    if width == 0 {
        Seq::empty()
    } else {
        big_endian(n / 256, (width - 1) as nat).push((n % 256) as u8)
    }
}

/// The head of an item: its type, in the upper three bits, and its argument in the fewest bytes.
pub open spec fn cbor_head(major: u8, n: nat) -> Seq<u8> {
    if n < 24 {
        seq![(major + n) as u8]
    } else if n <= 0xff {
        seq![(major + 24) as u8] + big_endian(n, 1)
    } else if n <= 0xffff {
        seq![(major + 25) as u8] + big_endian(n, 2)
    } else if n <= 0xffff_ffff {
        seq![(major + 26) as u8] + big_endian(n, 4)
    } else {
        seq![(major + 27) as u8] + big_endian(n, 8)
    }
}

pub open spec fn cbor_uint(n: nat) -> Seq<u8> {
    cbor_head(0x00, n)
}

pub open spec fn cbor_bytestring(bytes: Seq<u8>) -> Seq<u8> {
    cbor_head(0x40, bytes.len()) + bytes
}

/// The items one after another.
pub open spec fn joined(items: Seq<Seq<u8>>) -> Seq<u8>
    decreases items.len(),
{
    if items.len() == 0 {
        Seq::empty()
    } else {
        joined(items.drop_last()) + items.last()
    }
}

/// An array of indefinite length.
pub open spec fn cbor_list(items: Seq<Seq<u8>>) -> Seq<u8> {
    seq![0x9fu8] + joined(items) + seq![0xffu8]
}

/// A constructor with its fields.
pub open spec fn cbor_constr(tag: nat, fields: Seq<Seq<u8>>) -> Seq<u8> {
    cbor_head(0xc0, tag) + cbor_list(fields)
}

/// A constructor with a definite, empty array of fields.
pub open spec fn cbor_empty_constr(tag: nat) -> Seq<u8> {
    cbor_head(0xc0, tag) + cbor_head(0x80, 0)
}

pub proof fn lemma_joined_push(items: Seq<Seq<u8>>, item: Seq<u8>)
    ensures
        joined(items.push(item)) == joined(items) + item,
{
    assert(items.push(item).drop_last() =~= items);
}

// ---------------------------------------------------------------------------------------------
// Writers

/// `minicbor::Encoder::tag`: appends the head of a tagged item.
#[verifier::external_body]
pub(crate) fn put_tag(buf: &mut Vec<u8>, tag: u64)
    ensures
        final(buf)@ == old(buf)@ + cbor_head(0xc0, tag as nat),
{
    Encoder::new(buf).tag(Tag::new(tag)).unwrap();
}

/// `minicbor::Encoder::begin_array`: appends the start of an array of indefinite length.
#[verifier::external_body]
pub(crate) fn put_begin_array(buf: &mut Vec<u8>)
    ensures
        final(buf)@ == old(buf)@ + seq![0x9fu8],
{
    Encoder::new(buf).begin_array().unwrap();
}

/// `minicbor::Encoder::end`: appends the end of an item of indefinite length.
#[verifier::external_body]
pub(crate) fn put_end(buf: &mut Vec<u8>)
    ensures
        final(buf)@ == old(buf)@ + seq![0xffu8],
{
    Encoder::new(buf).end().unwrap();
}

/// `minicbor::Encoder::array`: appends the head of an array of known length.
#[verifier::external_body]
pub(crate) fn put_array(buf: &mut Vec<u8>, len: u64)
    ensures
        final(buf)@ == old(buf)@ + cbor_head(0x80, len as nat),
{
    Encoder::new(buf).array(len).unwrap();
}

/// `minicbor::Encoder::bytes`: appends a byte string.
#[verifier::external_body]
pub(crate) fn put_bytes(buf: &mut Vec<u8>, bytes: &[u8])
    ensures
        final(buf)@ == old(buf)@ + cbor_bytestring(bytes@),
{
    Encoder::new(buf).bytes(bytes).unwrap();
}

/// `minicbor::Encoder::u16`: appends an unsigned integer in the fewest bytes.
#[verifier::external_body]
pub(crate) fn put_u16(buf: &mut Vec<u8>, n: u16)
    ensures
        final(buf)@ == old(buf)@ + cbor_uint(n as nat),
{
    Encoder::new(buf).u16(n).unwrap();
}

/// `minicbor::Encoder::u32`: appends an unsigned integer in the fewest bytes.
#[verifier::external_body]
pub(crate) fn put_u32(buf: &mut Vec<u8>, n: u32)
    ensures
        final(buf)@ == old(buf)@ + cbor_uint(n as nat),
{
    Encoder::new(buf).u32(n).unwrap();
}

/// `minicbor::Encoder::u64`: appends an unsigned integer in the fewest bytes.
#[verifier::external_body]
pub(crate) fn put_u64(buf: &mut Vec<u8>, n: u64)
    ensures
        final(buf)@ == old(buf)@ + cbor_uint(n as nat),
{
    Encoder::new(buf).u64(n).unwrap();
}

// ---------------------------------------------------------------------------------------------
// Decoding is unambiguous

pub proof fn lemma_big_endian_len(n: nat, width: nat)
    ensures
        big_endian(n, width).len() == width,
    decreases width,
{
    if width > 0 {
        lemma_big_endian_len(n / 256, (width - 1) as nat);
    }
}

/// The largest number of `width` bytes, plus one.
pub open spec fn byte_range(width: nat) -> nat
    decreases width,
{
    if width == 0 {
        1
    } else {
        256 * byte_range((width - 1) as nat)
    }
}

pub proof fn lemma_big_endian_injective(a: nat, b: nat, width: nat)
    requires
        a < byte_range(width),
        b < byte_range(width),
        big_endian(a, width) == big_endian(b, width),
    ensures
        a == b,
    decreases width,
{
    if width > 0 {
        let x = big_endian(a, width);
        let y = big_endian(b, width);
        assert(x.last() == y.last());
        assert(x.drop_last() =~= big_endian(a / 256, (width - 1) as nat));
        assert(y.drop_last() =~= big_endian(b / 256, (width - 1) as nat));
        lemma_big_endian_injective(a / 256, b / 256, (width - 1) as nat);
    }
}

proof fn lemma_head_shape(major: u8, n: nat)
    requires
        major <= 0xe0,
        n <= u64::MAX,
    ensures
        cbor_head(major, n).len() > 0,
        major <= cbor_head(major, n)[0] <= major + 27,
        cbor_head(major, n).len() == (if n < 24 {
            1
        } else if n <= 0xff {
            2
        } else if n <= 0xffff {
            3
        } else if n <= 0xffff_ffff {
            5
        } else {
            9int
        }),
        cbor_head(major, n)[0] == major + (if n < 24 {
            n as int
        } else if n <= 0xff {
            24
        } else if n <= 0xffff {
            25
        } else if n <= 0xffff_ffff {
            26
        } else {
            27
        }),
{
    lemma_big_endian_len(n, 1);
    lemma_big_endian_len(n, 2);
    lemma_big_endian_len(n, 4);
    lemma_big_endian_len(n, 8);
}

/// A head is read back, with what follows it.
pub proof fn lemma_head_read_back(major: u8, a: nat, b: nat, rest_a: Seq<u8>, rest_b: Seq<u8>)
    requires
        major <= 0xe0,
        a <= u64::MAX,
        b <= u64::MAX,
        cbor_head(major, a) + rest_a == cbor_head(major, b) + rest_b,
    ensures
        a == b,
        rest_a == rest_b,
{
    let x = cbor_head(major, a);
    let y = cbor_head(major, b);
    lemma_head_shape(major, a);
    lemma_head_shape(major, b);
    assert((x + rest_a)[0] == x[0]);
    assert((y + rest_b)[0] == y[0]);
    assert(x.len() == y.len());
    assert(x =~= (x + rest_a).take(x.len() as int));
    assert(y =~= (y + rest_b).take(y.len() as int));
    assert(x == y);
    let width = (x.len() - 1) as nat;
    if width > 0 {
        lemma_big_endian_len(a, width);
        lemma_big_endian_len(b, width);
        assert(x.skip(1) =~= big_endian(a, width));
        assert(y.skip(1) =~= big_endian(b, width));
        reveal_with_fuel(byte_range, 9);
        lemma_big_endian_injective(a, b, width);
    }
    assert(rest_a =~= (x + rest_a).skip(x.len() as int));
    assert(rest_b =~= (y + rest_b).skip(y.len() as int));
}

/// A byte string is read back, with what follows it.
pub proof fn lemma_bytestring_read_back(
    a: Seq<u8>,
    b: Seq<u8>,
    rest_a: Seq<u8>,
    rest_b: Seq<u8>,
)
    requires
        a.len() <= u64::MAX,
        b.len() <= u64::MAX,
        cbor_bytestring(a) + rest_a == cbor_bytestring(b) + rest_b,
    ensures
        a == b,
        rest_a == rest_b,
{
    assert(cbor_bytestring(a) + rest_a =~= cbor_head(0x40, a.len()) + (a + rest_a));
    assert(cbor_bytestring(b) + rest_b =~= cbor_head(0x40, b.len()) + (b + rest_b));
    lemma_head_read_back(0x40, a.len(), b.len(), a + rest_a, b + rest_b);
    assert(a =~= (a + rest_a).take(a.len() as int));
    assert(b =~= (b + rest_b).take(b.len() as int));
    assert(rest_a =~= (a + rest_a).skip(a.len() as int));
    assert(rest_b =~= (b + rest_b).skip(b.len() as int));
}

/// An encoding whose values are read back with what follows them, and that never starts like the
/// end of an array.
pub open spec fn self_delimiting<T>(encode: spec_fn(T) -> Seq<u8>, valid: spec_fn(T) -> bool) -> bool {
    &&& forall|a: T, b: T, x: Seq<u8>, y: Seq<u8>|
        #![trigger encode(a) + x, encode(b) + y]
        valid(a) && valid(b) && encode(a) + x == encode(b) + y ==> a == b && x == y
    &&& forall|a: T| valid(a) ==> (#[trigger] encode(a)).len() > 0 && encode(a)[0] != 0xff
}

proof fn lemma_joined_first(items: Seq<Seq<u8>>)
    requires
        items.len() > 0,
    ensures
        joined(items) == items[0] + joined(items.drop_first()),
    decreases items.len(),
{
    if items.len() == 1 {
        assert(items.drop_last() =~= Seq::<Seq<u8>>::empty());
        assert(items.drop_first() =~= Seq::<Seq<u8>>::empty());
        assert(joined(items.drop_last()) =~= Seq::<u8>::empty());
        assert(joined(items) =~= items[0] + joined(items.drop_first()));
    } else {
        lemma_joined_first(items.drop_last());
        assert(items.drop_last().drop_first() =~= items.drop_first().drop_last());
        assert(items.drop_first().last() == items.last());
        assert(joined(items) =~= items[0] + joined(items.drop_first()));
    }
}

/// A list is read back, with what follows it.
pub proof fn lemma_list_read_back<T>(
    encode: spec_fn(T) -> Seq<u8>,
    valid: spec_fn(T) -> bool,
    a: Seq<T>,
    b: Seq<T>,
    rest_a: Seq<u8>,
    rest_b: Seq<u8>,
)
    requires
        self_delimiting(encode, valid),
        forall|i: int| 0 <= i < a.len() ==> valid(#[trigger] a[i]),
        forall|i: int| 0 <= i < b.len() ==> valid(#[trigger] b[i]),
        cbor_list(a.map_values(encode)) + rest_a == cbor_list(b.map_values(encode)) + rest_b,
    ensures
        a == b,
        rest_a == rest_b,
{
    let x = joined(a.map_values(encode)) + (seq![0xffu8] + rest_a);
    let y = joined(b.map_values(encode)) + (seq![0xffu8] + rest_b);
    assert(x =~= (cbor_list(a.map_values(encode)) + rest_a).skip(1));
    assert(y =~= (cbor_list(b.map_values(encode)) + rest_b).skip(1));
    lemma_items_read_back(encode, valid, a, b, rest_a, rest_b);
}

proof fn lemma_items_read_back<T>(
    encode: spec_fn(T) -> Seq<u8>,
    valid: spec_fn(T) -> bool,
    a: Seq<T>,
    b: Seq<T>,
    rest_a: Seq<u8>,
    rest_b: Seq<u8>,
)
    requires
        self_delimiting(encode, valid),
        forall|i: int| 0 <= i < a.len() ==> valid(#[trigger] a[i]),
        forall|i: int| 0 <= i < b.len() ==> valid(#[trigger] b[i]),
        joined(a.map_values(encode)) + (seq![0xffu8] + rest_a) == joined(b.map_values(encode)) + (
        seq![0xffu8] + rest_b),
    ensures
        a == b,
        rest_a == rest_b,
    decreases a.len(),
{
    let ea = a.map_values(encode);
    let eb = b.map_values(encode);
    let end_a = seq![0xffu8] + rest_a;
    let end_b = seq![0xffu8] + rest_b;
    let x = joined(ea) + end_a;
    let y = joined(eb) + end_b;
    if a.len() > 0 {
        lemma_joined_first(ea);
        assert(valid(a[0]));
        assert(x[0] == encode(a[0])[0]);
    } else {
        assert(x[0] == 0xff);
    }
    if b.len() > 0 {
        lemma_joined_first(eb);
        assert(valid(b[0]));
        assert(y[0] == encode(b[0])[0]);
    } else {
        assert(y[0] == 0xff);
    }
    if a.len() == 0 || b.len() == 0 {
        assert(a.len() == 0 && b.len() == 0);
        assert(a =~= b);
        assert(joined(ea) =~= Seq::<u8>::empty());
        assert(joined(eb) =~= Seq::<u8>::empty());
        assert(rest_a =~= x.skip(1));
        assert(rest_b =~= y.skip(1));
    } else {
        let ta = a.drop_first();
        let tb = b.drop_first();
        assert(ea.drop_first() =~= ta.map_values(encode));
        assert(eb.drop_first() =~= tb.map_values(encode));
        let after_a = joined(ta.map_values(encode)) + end_a;
        let after_b = joined(tb.map_values(encode)) + end_b;
        assert(x =~= encode(a[0]) + after_a);
        assert(y =~= encode(b[0]) + after_b);
        assert(a[0] == b[0] && after_a == after_b);
        lemma_items_read_back(encode, valid, ta, tb, rest_a, rest_b);
        assert(a =~= seq![a[0]] + ta);
        assert(b =~= seq![b[0]] + tb);
    }
}

} // verus!
