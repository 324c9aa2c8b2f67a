//! Lists of bounded length, kept within their bound by `frame_support::BoundedVec`.
use crate::model::{bytes_precede, lemma_bytes_irreflexive, lemma_bytes_total, lemma_bytes_transitive};
use crate::model::{models, rank_bytes, same_bytes, Key, Model, Rank};
use frame_support::traits::ConstU32;
use vstd::prelude::*;

verus! {

/// The first `bound` elements, or all where there are no more.
pub open spec fn truncated<T>(items: Seq<T>, bound: nat) -> Seq<T> {
    if items.len() <= bound {
        items
    } else {
        items.take(bound as int)
    }
}

/// A truncated list has as many elements as there are and fit, and they are the first ones in their
/// order.
pub proof fn lemma_truncated<T>(items: Seq<T>, bound: nat)
    ensures
        truncated(items, bound).len() <= bound,
        truncated(items, bound).len() <= items.len(),
        truncated(items, bound).len() == bound || truncated(items, bound).len() == items.len(),
        forall|i: int|
            0 <= i < truncated(items, bound).len() ==> #[trigger] truncated(items, bound)[i]
                == items[i],
{
}

/// A list of at most `N` elements.
#[derive(Debug, PartialEq, Eq, PartialOrd, Ord)]
pub struct BoundedVec<T, const N: u32> {
    items: Vec<T>,
}

impl<T, const N: u32> View for BoundedVec<T, N> {
    type V = Seq<T>;

    closed spec fn view(&self) -> Seq<T> {
        self.items@
    }
}

/// `TryFrom<Vec<T>>` of `frame_support::BoundedVec`: accepts a list of at most `N` elements and hands
/// back a longer one.
#[verifier::external_body]
fn bounded_try_from<T, const N: u32>(items: Vec<T>) -> (r: Result<Vec<T>, Vec<T>>)
    ensures
        r is Ok <==> items@.len() <= N,
        r matches Ok(kept) ==> kept@ == items@,
        r matches Err(refused) ==> refused@ == items@,
{
    match frame_support::BoundedVec::<T, ConstU32<N>>::try_from(items) {
        Ok(bounded) => Ok(bounded.into_inner()),
        Err(items) => Err(items),
    }
}

/// `frame_support::BoundedVec::truncate_from`: keeps the first `N` elements.
#[verifier::external_body]
fn bounded_truncate_from<T, const N: u32>(items: Vec<T>) -> (r: Vec<T>)
    ensures
        r@ == truncated(items@, N as nat),
{
    frame_support::BoundedVec::<T, ConstU32<N>>::truncate_from(items).into_inner()
}

/// `frame_support::BoundedVec::try_push` on a list of at most `N` elements: appends the element if
/// there is room, and hands it back otherwise.
#[verifier::external_body]
fn bounded_try_push<T, const N: u32>(items: Vec<T>, item: T) -> (r: (Vec<T>, Result<(), T>))
    requires
        items@.len() <= N,
    ensures
        r.0@ == (if items@.len() == N {
            items@
        } else {
            items@.push(item)
        }),
        r.1 is Ok <==> items@.len() != N,
        r.1 matches Err(back) ==> back == item,
{
    let mut bounded = frame_support::BoundedVec::<T, ConstU32<N>>::truncate_from(items);
    let outcome = bounded.try_push(item);
    (bounded.into_inner(), outcome)
}

impl<T, const N: u32> BoundedVec<T, N> {
    #[verifier::type_invariant]
    pub closed spec fn within_bound(self) -> bool {
        self.items@.len() <= N
    }

    pub fn new() -> (r: Self)
        ensures
            r@ == Seq::<T>::empty(),
    {
        BoundedVec { items: Vec::new() }
    }

    /// A list of at most `N` elements is accepted, a longer one handed back.
    pub fn try_from(items: Vec<T>) -> (r: Result<Self, Vec<T>>)
        ensures
            r is Ok <==> items@.len() <= N,
            r matches Ok(kept) ==> kept@ == items@,
            r matches Err(refused) ==> refused@ == items@,
    {
        match bounded_try_from::<T, N>(items) {
            Ok(kept) => Ok(BoundedVec { items: kept }),
            Err(refused) => Err(refused),
        }
    }

    /// Keeps the first `N` elements.
    pub fn truncate_from(items: Vec<T>) -> (r: Self)
        ensures
            r@ == truncated(items@, N as nat),
    {
        BoundedVec { items: bounded_truncate_from::<T, N>(items) }
    }

    /// Appends `item` if there is room, and hands it back otherwise.
    pub fn try_push(&mut self, item: T) -> (r: Result<(), T>)
        ensures
            final(self)@ == (if r is Ok {
                old(self)@.push(item)
            } else {
                old(self)@
            }),
            r is Ok <==> old(self)@.len() < N,
            r matches Err(back) ==> back == item,
    {
        proof {
            use_type_invariant(&*self);
        }
        let mut items: Vec<T> = Vec::new();
        std::mem::swap(&mut items, &mut self.items);
        let (kept, outcome) = bounded_try_push::<T, N>(items, item);
        self.items = kept;
        outcome
    }

    pub fn len(&self) -> (n: usize)
        ensures
            n == self@.len(),
            n <= N,
    {
        proof {
            use_type_invariant(self);
        }
        self.items.len()
    }

    pub fn get(&self, index: usize) -> (r: Option<&T>)
        ensures
            r == if index < self@.len() {
                Some(&self@[index as int])
            } else {
                None
            },
    {
        if index < self.items.len() {
            Some(&self.items[index])
        } else {
            None
        }
    }

    /// The element at an index within the list.
    pub fn at(&self, index: usize) -> (r: &T)
        requires
            index < self@.len(),
        ensures
            *r == self@[index as int],
    {
        &self.items[index]
    }

    pub fn as_vec(&self) -> (r: &Vec<T>)
        ensures
            r@ == self@,
    {
        &self.items
    }

    pub fn into_inner(self) -> (r: Vec<T>)
        ensures
            r@ == self@,
            r@.len() <= N,
    {
        proof {
            use_type_invariant(&self);
        }
        self.items
    }
}

impl<T: Model, const N: u32> Model for BoundedVec<T, N> {
    type M = Seq<T::M>;

    open spec fn model(&self) -> Seq<T::M> {
        models(self@)
    }

    fn duplicate(&self) -> (copy: BoundedVec<T, N>) {
        proof {
            use_type_invariant(self);
        }
        let items = self.items.duplicate();
        assert(models(items@).len() == models(self.items@).len());
        BoundedVec { items }
    }
}

impl<const N: u32> Key for BoundedVec<u8, N> {
    open spec fn precedes(a: Seq<u8>, b: Seq<u8>) -> bool {
        bytes_precede(a, b)
    }

    proof fn lemma_irreflexive(a: Seq<u8>) {
        lemma_bytes_irreflexive(a);
    }

    proof fn lemma_transitive(a: Seq<u8>, b: Seq<u8>, c: Seq<u8>) {
        lemma_bytes_transitive(a, b, c);
    }

    proof fn lemma_total(a: Seq<u8>, b: Seq<u8>) {
        lemma_bytes_total(a, b);
    }

    fn rank(&self, other: &BoundedVec<u8, N>) -> (r: Rank) {
        proof {
            lemma_byte_models(self@);
            lemma_byte_models(other@);
        }
        rank_bytes(self.items.as_slice(), other.items.as_slice())
    }
}

impl<const N: u32> BoundedVec<u8, N> {
    pub fn same(&self, other: &BoundedVec<u8, N>) -> (r: bool)
        ensures
            r == (self.model() == other.model()),
    {
        proof {
            lemma_byte_models(self@);
            lemma_byte_models(other@);
        }
        same_bytes(self.items.as_slice(), other.items.as_slice())
    }
}

/// A byte string is its own model.
pub proof fn lemma_byte_models(bytes: Seq<u8>)
    ensures
        models(bytes) == bytes,
{
    assert(models(bytes) =~= bytes);
}

} // verus!
