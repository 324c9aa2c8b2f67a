//! Mathematical counterparts of the values that the library stores, and the order of keys.
use vstd::prelude::*;

verus! {

/// A value with a mathematical counterpart. Two values are the same to the library when their
/// models are equal.
pub trait Model: Sized {
    type M;

    spec fn model(&self) -> Self::M;

    fn duplicate(&self) -> (copy: Self)
        ensures
            copy.model() == self.model(),
    ;
}

/// How a value stands to another in their order.
#[derive(Clone, Copy, Debug, PartialEq, Eq, Structural)]
pub enum Rank {
    Before,
    Same,
    After,
}

/// A value with a strict total order on its models.
pub trait Key: Model {
    spec fn precedes(a: Self::M, b: Self::M) -> bool;

    proof fn lemma_irreflexive(a: Self::M)
        ensures
            !Self::precedes(a, a),
    ;

    proof fn lemma_transitive(a: Self::M, b: Self::M, c: Self::M)
        requires
            Self::precedes(a, b),
            Self::precedes(b, c),
        ensures
            Self::precedes(a, c),
    ;

    proof fn lemma_total(a: Self::M, b: Self::M)
        ensures
            a == b || Self::precedes(a, b) || Self::precedes(b, a),
    ;

    fn rank(&self, other: &Self) -> (r: Rank)
        ensures
            match r {
                Rank::Before => Self::precedes(self.model(), other.model()),
                Rank::Same => self.model() == other.model(),
                Rank::After => Self::precedes(other.model(), self.model()),
            },
    ;
}

/// Equal keys have equal ranks: a key stands in exactly one rank to another.
pub proof fn lemma_rank_exclusive<K: Key>(a: K::M, b: K::M)
    requires
        K::precedes(a, b),
    ensures
        a != b,
        !K::precedes(b, a),
{
    K::lemma_irreflexive(a);
    if K::precedes(b, a) {
        K::lemma_transitive(a, b, a);
    }
}

// ---------------------------------------------------------------------------------------------
// Plain values

impl Model for () {
    type M = ();

    open spec fn model(&self) -> () {
        *self
    }

    fn duplicate(&self) -> (copy: ()) {
        *self
    }
}

impl Model for u8 {
    type M = u8;

    open spec fn model(&self) -> u8 {
        *self
    }

    fn duplicate(&self) -> (copy: u8) {
        *self
    }
}

impl Model for u16 {
    type M = u16;

    open spec fn model(&self) -> u16 {
        *self
    }

    fn duplicate(&self) -> (copy: u16) {
        *self
    }
}

impl Model for u32 {
    type M = u32;

    open spec fn model(&self) -> u32 {
        *self
    }

    fn duplicate(&self) -> (copy: u32) {
        *self
    }
}

impl Model for u64 {
    type M = u64;

    open spec fn model(&self) -> u64 {
        *self
    }

    fn duplicate(&self) -> (copy: u64) {
        *self
    }
}

impl Key for u64 {
    open spec fn precedes(a: u64, b: u64) -> bool {
        a < b
    }

    proof fn lemma_irreflexive(a: u64) {
    }

    proof fn lemma_transitive(a: u64, b: u64, c: u64) {
    }

    proof fn lemma_total(a: u64, b: u64) {
    }

    fn rank(&self, other: &u64) -> (r: Rank) {
        if *self < *other {
            Rank::Before
        } else if *self == *other {
            Rank::Same
        } else {
            Rank::After
        }
    }
}

impl<const L: usize> Model for [u8; L] {
    type M = [u8; L];

    open spec fn model(&self) -> [u8; L] {
        *self
    }

    fn duplicate(&self) -> (copy: [u8; L]) {
        *self
    }
}

impl<T: Model> Model for Option<T> {
    type M = Option<T::M>;

    open spec fn model(&self) -> Option<T::M> {
        match self {
            Some(value) => Some(value.model()),
            None => None,
        }
    }

    fn duplicate(&self) -> (copy: Option<T>) {
        match self {
            Some(value) => Some(value.duplicate()),
            None => None,
        }
    }
}

impl<A: Model, B: Model> Model for (A, B) {
    type M = (A::M, B::M);

    open spec fn model(&self) -> (A::M, B::M) {
        (self.0.model(), self.1.model())
    }

    fn duplicate(&self) -> (copy: (A, B)) {
        (self.0.duplicate(), self.1.duplicate())
    }
}

impl<A: Key, B: Key> Key for (A, B) {
    open spec fn precedes(a: (A::M, B::M), b: (A::M, B::M)) -> bool {
        A::precedes(a.0, b.0) || (a.0 == b.0 && B::precedes(a.1, b.1))
    }

    proof fn lemma_irreflexive(a: (A::M, B::M)) {
        A::lemma_irreflexive(a.0);
        B::lemma_irreflexive(a.1);
    }

    proof fn lemma_transitive(a: (A::M, B::M), b: (A::M, B::M), c: (A::M, B::M)) {
        if A::precedes(a.0, b.0) && A::precedes(b.0, c.0) {
            A::lemma_transitive(a.0, b.0, c.0);
        }
        if B::precedes(a.1, b.1) && B::precedes(b.1, c.1) {
            B::lemma_transitive(a.1, b.1, c.1);
        }
    }

    proof fn lemma_total(a: (A::M, B::M), b: (A::M, B::M)) {
        A::lemma_total(a.0, b.0);
        B::lemma_total(a.1, b.1);
    }

    fn rank(&self, other: &(A, B)) -> (r: Rank) {
        match self.0.rank(&other.0) {
            Rank::Before => Rank::Before,
            Rank::After => Rank::After,
            Rank::Same => self.1.rank(&other.1),
        }
    }
}

impl<A: Model, B: Model, C: Model> Model for (A, B, C) {
    type M = (A::M, B::M, C::M);

    open spec fn model(&self) -> (A::M, B::M, C::M) {
        (self.0.model(), self.1.model(), self.2.model())
    }

    fn duplicate(&self) -> (copy: (A, B, C)) {
        (self.0.duplicate(), self.1.duplicate(), self.2.duplicate())
    }
}

impl Model for String {
    type M = Seq<char>;

    open spec fn model(&self) -> Seq<char> {
        self@
    }

    fn duplicate(&self) -> (copy: String) {
        self.clone()
    }
}

// ---------------------------------------------------------------------------------------------
// Lists

/// The models of the elements.
pub open spec fn models<T: Model>(items: Seq<T>) -> Seq<T::M> {
    items.map_values(|item: T| item.model())
}

pub proof fn lemma_models_push<T: Model>(items: Seq<T>, item: T)
    ensures
        models(items.push(item)) == models(items).push(item.model()),
{
    assert(models(items.push(item)) =~= models(items).push(item.model()));
}

impl<T: Model> Model for Vec<T> {
    type M = Seq<T::M>;

    open spec fn model(&self) -> Seq<T::M> {
        models(self@)
    }

    fn duplicate(&self) -> (copy: Vec<T>) {
        let mut copy: Vec<T> = Vec::new();
        for i in 0..self.len()
            invariant
                models(copy@) == models(self@).take(i as int),
        {
            let item = self[i].duplicate();
            proof {
                lemma_models_push(copy@, item);
            }
            copy.push(item);
            assert(models(self@).take(i + 1) =~= models(self@).take(i as int).push(
                self@[i as int].model(),
            ));
        }
        assert(models(copy@) == models(self@)) by {
            assert(models(self@).take(self@.len() as int) =~= models(self@));
        }
        assert(copy.model() == models(copy@));
        assert(self.model() == models(self@));
        copy
    }
}

// ---------------------------------------------------------------------------------------------
// Byte strings

/// Dictionary order of byte strings: the first difference decides, and a proper prefix comes first.
pub open spec fn bytes_precede(a: Seq<u8>, b: Seq<u8>) -> bool
    decreases a.len(),
{
    if b.len() == 0 {
        false
    } else if a.len() == 0 {
        true
    } else if a[0] != b[0] {
        a[0] < b[0]
    } else {
        bytes_precede(a.drop_first(), b.drop_first())
    }
}

pub proof fn lemma_bytes_irreflexive(a: Seq<u8>)
    ensures
        !bytes_precede(a, a),
    decreases a.len(),
{
    if a.len() > 0 {
        lemma_bytes_irreflexive(a.drop_first());
    }
}

pub proof fn lemma_bytes_transitive(a: Seq<u8>, b: Seq<u8>, c: Seq<u8>)
    requires
        bytes_precede(a, b),
        bytes_precede(b, c),
    ensures
        bytes_precede(a, c),
    decreases a.len(),
{
    if a.len() > 0 && a[0] == b[0] && b[0] == c[0] {
        lemma_bytes_transitive(a.drop_first(), b.drop_first(), c.drop_first());
    }
}

pub proof fn lemma_bytes_total(a: Seq<u8>, b: Seq<u8>)
    ensures
        a == b || bytes_precede(a, b) || bytes_precede(b, a),
    decreases a.len(),
{
    if a.len() == 0 || b.len() == 0 {
        if a.len() == b.len() {
            assert(a =~= b);
        }
    } else if a[0] == b[0] {
        lemma_bytes_total(a.drop_first(), b.drop_first());
        if a.drop_first() == b.drop_first() {
            assert(a =~= seq![a[0]] + a.drop_first());
            assert(b =~= seq![b[0]] + b.drop_first());
        }
    }
}

proof fn lemma_bytes_skip(a: Seq<u8>, b: Seq<u8>, i: int)
    requires
        0 <= i <= a.len(),
        i <= b.len(),
        forall|j: int| 0 <= j < i ==> a[j] == b[j],
    ensures
        bytes_precede(a, b) == bytes_precede(a.skip(i), b.skip(i)),
    decreases i,
{
    if i == 0 {
        assert(a.skip(0) =~= a);
        assert(b.skip(0) =~= b);
    } else {
        lemma_bytes_skip(a, b, i - 1);
        let x = a.skip(i - 1);
        let y = b.skip(i - 1);
        assert(x[0] == a[i - 1] && y[0] == b[i - 1]);
        assert(x.drop_first() =~= a.skip(i));
        assert(y.drop_first() =~= b.skip(i));
    }
}

/// Of two byte strings that agree in their first `i` bytes, the one that ends there comes first, and
/// otherwise the one with the smaller next byte.
pub proof fn lemma_bytes_order(a: Seq<u8>, b: Seq<u8>, i: int)
    requires
        0 <= i <= a.len(),
        i <= b.len(),
        forall|j: int| 0 <= j < i ==> a[j] == b[j],
    ensures
        i == b.len() ==> !bytes_precede(a, b),
        i == a.len() && i < b.len() ==> bytes_precede(a, b),
        i < a.len() && i < b.len() && a[i] < b[i] ==> bytes_precede(a, b),
        i < a.len() && i < b.len() && a[i] > b[i] ==> !bytes_precede(a, b),
{
    lemma_bytes_skip(a, b, i);
    if i < a.len() && i < b.len() {
        assert(a.skip(i)[0] == a[i]);
        assert(b.skip(i)[0] == b[i]);
    }
}

pub fn rank_bytes(a: &[u8], b: &[u8]) -> (r: Rank)
    ensures
        match r {
            Rank::Before => bytes_precede(a@, b@),
            Rank::Same => a@ == b@,
            Rank::After => bytes_precede(b@, a@),
        },
{
    let mut i: usize = 0;
    while i < a.len() && i < b.len()
        invariant
            i <= a.len(),
            i <= b.len(),
            forall|j: int| 0 <= j < i ==> a@[j] == b@[j],
        decreases a.len() - i,
    {
        if a[i] != b[i] {
            proof {
                lemma_bytes_skip(a@, b@, i as int);
                lemma_bytes_skip(b@, a@, i as int);
                assert(a@.skip(i as int)[0] == a@[i as int]);
                assert(b@.skip(i as int)[0] == b@[i as int]);
            }
            return if a[i] < b[i] {
                Rank::Before
            } else {
                Rank::After
            };
        }
        i += 1;
    }
    proof {
        lemma_bytes_skip(a@, b@, i as int);
        lemma_bytes_skip(b@, a@, i as int);
    }
    if a.len() < b.len() {
        Rank::Before
    } else if b.len() < a.len() {
        Rank::After
    } else {
        assert(a@ =~= b@);
        Rank::Same
    }
}

pub fn same_bytes(a: &[u8], b: &[u8]) -> (r: bool)
    ensures
        r == (a@ == b@),
{
    let rank = rank_bytes(a, b);
    proof {
        lemma_bytes_irreflexive(a@);
    }
    match rank {
        Rank::Same => true,
        _ => false,
    }
}

impl<const L: usize> Key for [u8; L] {
    open spec fn precedes(a: [u8; L], b: [u8; L]) -> bool {
        bytes_precede(a@, b@)
    }

    proof fn lemma_irreflexive(a: [u8; L]) {
        lemma_bytes_irreflexive(a@);
    }

    proof fn lemma_transitive(a: [u8; L], b: [u8; L], c: [u8; L]) {
        lemma_bytes_transitive(a@, b@, c@);
    }

    proof fn lemma_total(a: [u8; L], b: [u8; L]) {
        lemma_bytes_total(a@, b@);
        if a@ == b@ {
            assert forall|i: int| 0 <= i < L implies a[i] == b[i] by {
                assert(a@[i] == b@[i]);
            }
            assert(a =~= b);
        }
    }

    fn rank(&self, other: &[u8; L]) -> (r: Rank) {
        let r = rank_bytes(self.as_slice(), other.as_slice());
        proof {
            if self@ == other@ {
                Self::lemma_total(*self, *other);
                lemma_bytes_irreflexive(self@);
            }
        }
        r
    }
}

pub fn same_array<const L: usize>(a: &[u8; L], b: &[u8; L]) -> (r: bool)
    ensures
        r == (a == b),
{
    let rank = a.rank(b);
    proof {
        lemma_bytes_irreflexive(a@);
    }
    match rank {
        Rank::Same => true,
        _ => false,
    }
}

} // verus!
