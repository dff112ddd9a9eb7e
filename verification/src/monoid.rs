use vstd::prelude::*;

verus! {

/// A carrier type together with an associative binary operation.
///
/// An implementation names the carrier, a mathematical model of it, and the
/// operation on models; it must prove the operation associative, and its
/// executable `append` exact with respect to the model.
pub trait Semigroup: Sized {
    /// The carrier values that `append` combines.
    type T;

    /// The mathematical model of a carrier value.
    type Model;

    /// The model of a carrier value.
    spec fn model(x: Self::T) -> Self::Model;

    /// The operation, on models.
    spec fn op(a: Self::Model, b: Self::Model) -> Self::Model;

    /// The associativity law: grouping never matters.
    proof fn lemma_associative(a: Self::Model, b: Self::Model, c: Self::Model)
        ensures
            Self::op(Self::op(a, b), c) == Self::op(a, Self::op(b, c)),
    ;

    /// Combines two carrier values.
    fn append(a: Self::T, b: Self::T) -> (r: Self::T)
        ensures
            Self::model(r) == Self::op(Self::model(a), Self::model(b)),
    ;
}

/// `a` combined with itself `n` times on top of the identity.
pub open spec fn spec_times<M: Monoid>(a: M::Model, n: nat) -> M::Model
    decreases n,
{
    if n == 0 {
        M::unit()
    } else {
        M::op(spec_times::<M>(a, (n - 1) as nat), a)
    }
}

/// A semigroup with a two-sided identity element.
pub trait Monoid: Semigroup {
    /// The identity element, on models.
    spec fn unit() -> Self::Model;

    /// The identity laws: the unit changes nothing on either side.
    proof fn lemma_identity(a: Self::Model)
        ensures
            Self::op(Self::unit(), a) == a,
            Self::op(a, Self::unit()) == a,
    ;

    /// Produces the identity element.
    fn identity() -> (r: Self::T)
        ensures
            Self::model(r) == Self::unit(),
    ;
}

/// Combines `a` with itself `n` times on top of the identity.
///
/// The caller supplies the duplicator that stands in for `Clone` — any
/// function that yields a value with the same model, such as `|x| *x` for a
/// `Copy` carrier or a model-exact `clone` — since a bare generic `clone`
/// promises nothing about the model of what it returns.
pub fn times<M: Monoid, F: Fn(&M::T) -> M::T>(a: M::T, n: usize, dup: F) -> (r: M::T)
    requires
        forall|x: &M::T| #[trigger] call_requires(dup, (x,)),
        forall|x: &M::T, y: M::T| #[trigger] call_ensures(dup, (x,), y) ==> M::model(y)
            == M::model(*x),
    ensures
        M::model(r) == spec_times::<M>(M::model(a), n as nat),
{
    let mut res = M::identity();
    let mut i: usize = 0;
    while i < n
        invariant
            i <= n,
            M::model(res) == spec_times::<M>(M::model(a), i as nat),
            forall|x: &M::T| #[trigger] call_requires(dup, (x,)),
            forall|x: &M::T, y: M::T| #[trigger] call_ensures(dup, (x,), y) ==> M::model(y)
                == M::model(*x),
        decreases n - i,
    {
        let b = dup(&a);
        res = M::append(res, b);
        i = i + 1;
    }
    res
}

/// Saturating addition on `usize`.
pub struct Add;

impl Semigroup for Add {
    type T = usize;

    type Model = usize;

    open spec fn model(x: usize) -> usize {
        x
    }

    open spec fn op(a: usize, b: usize) -> usize {
        // saturating, so the operation is total on the carrier
        if a + b > usize::MAX {
            usize::MAX
        } else {
            (a + b) as usize
        }
    }

    proof fn lemma_associative(a: usize, b: usize, c: usize) {
    }

    fn append(a: usize, b: usize) -> (r: usize) {
        if a > usize::MAX - b {
            usize::MAX
        } else {
            a + b
        }
    }
}

impl Monoid for Add {
    open spec fn unit() -> usize {
        0
    }

    proof fn lemma_identity(a: usize) {
    }

    fn identity() -> (r: usize) {
        0
    }
}

/// Saturating multiplication on `usize`.
pub struct Mul;

impl Semigroup for Mul {
    type T = usize;

    type Model = usize;

    open spec fn model(x: usize) -> usize {
        x
    }

    open spec fn op(a: usize, b: usize) -> usize {
        // saturating, so the operation is total on the carrier
        if a * b > usize::MAX {
            usize::MAX
        } else {
            (a * b) as usize
        }
    }

    proof fn lemma_associative(a: usize, b: usize, c: usize) {
        lemma_saturating_mul_associative(a as int, b as int, c as int, usize::MAX as int);
    }

    fn append(a: usize, b: usize) -> (r: usize) {
        if b != 0 && a > usize::MAX / b {
            proof {
                lemma_div_bound_implies_mul_over(a as int, b as int, usize::MAX as int);
            }
            usize::MAX
        } else {
            proof {
                if b != 0 {
                    lemma_div_bound_implies_mul_le(a as int, b as int, usize::MAX as int);
                }
            }
            a * b
        }
    }
}

impl Monoid for Mul {
    open spec fn unit() -> usize {
        1
    }

    proof fn lemma_identity(a: usize) {
    }

    fn identity() -> (r: usize) {
        1
    }
}

/// `a > max / b` (with `b > 0`) means the true product overflows `max`.
proof fn lemma_div_bound_implies_mul_over(a: int, b: int, max: int)
    requires
        b > 0,
        0 <= a,
        0 <= max,
        a > max / b,
    ensures
        a * b > max,
{
    assert(a >= max / b + 1);
    assert((max / b + 1) * b == (max / b) * b + b) by (nonlinear_arith);
    assert((max / b) * b + b > max) by {
        vstd::arithmetic::div_mod::lemma_fundamental_div_mod(max, b);
        vstd::arithmetic::div_mod::lemma_mod_bound(max, b);
    }
    assert(a * b >= (max / b + 1) * b) by (nonlinear_arith)
        requires
            a >= max / b + 1,
            b > 0,
    ;
}

/// `a <= max / b` (with `b > 0`) means the true product fits under `max`.
proof fn lemma_div_bound_implies_mul_le(a: int, b: int, max: int)
    requires
        b > 0,
        0 <= a,
        0 <= max,
        a <= max / b,
    ensures
        a * b <= max,
{
    assert((max / b) * b <= max) by {
        vstd::arithmetic::div_mod::lemma_fundamental_div_mod(max, b);
        vstd::arithmetic::div_mod::lemma_mod_bound(max, b);
    }
    assert(a * b <= (max / b) * b) by (nonlinear_arith)
        requires
            0 <= a <= max / b,
            b > 0,
    ;
}

/// Multiplication clamped to `max` is associative.
proof fn lemma_saturating_mul_associative(a: int, b: int, c: int, max: int)
    requires
        0 <= a <= max,
        0 <= b <= max,
        0 <= c <= max,
        1 <= max,
    ensures
        sat_mul(sat_mul(a, b, max), c, max) == sat_mul(a, sat_mul(b, c, max), max),
{
    if a == 0 || b == 0 || c == 0 {
        assert(sat_mul(sat_mul(a, b, max), c, max) == sat_mul(a, sat_mul(b, c, max), max))
            by (nonlinear_arith)
            requires
                0 <= a <= max, 0 <= b <= max, 0 <= c <= max, 1 <= max,
                a == 0 || b == 0 || c == 0,
        ;
    } else {
        assert(sat_mul(sat_mul(a, b, max), c, max) == sat_mul(a, sat_mul(b, c, max), max))
            by (nonlinear_arith)
            requires
                1 <= a <= max, 1 <= b <= max, 1 <= c <= max, 1 <= max,
        ;
    }
}

/// `a * b` clamped to `max`.
spec fn sat_mul(a: int, b: int, max: int) -> int {
    if a * b > max {
        max
    } else {
        a * b
    }
}

/// Maximum on `usize`.
pub struct Max;

impl Semigroup for Max {
    type T = usize;

    type Model = usize;

    open spec fn model(x: usize) -> usize {
        x
    }

    open spec fn op(a: usize, b: usize) -> usize {
        if a >= b {
            a
        } else {
            b
        }
    }

    proof fn lemma_associative(a: usize, b: usize, c: usize) {
    }

    fn append(a: usize, b: usize) -> (r: usize) {
        if a >= b {
            a
        } else {
            b
        }
    }
}

impl Monoid for Max {
    open spec fn unit() -> usize {
        0
    }

    proof fn lemma_identity(a: usize) {
    }

    fn identity() -> (r: usize) {
        0
    }
}

/// Vector concatenation; its model is the sequence of elements.
pub struct VecAppend<T>(core::marker::PhantomData<T>);

impl<T> Semigroup for VecAppend<T> {
    type T = Vec<T>;

    type Model = Seq<T>;

    open spec fn model(x: Vec<T>) -> Seq<T> {
        x@
    }

    open spec fn op(a: Seq<T>, b: Seq<T>) -> Seq<T> {
        a + b
    }

    proof fn lemma_associative(a: Seq<T>, b: Seq<T>, c: Seq<T>) {
        assert((a + b) + c =~= a + (b + c));
    }

    fn append(a: Vec<T>, b: Vec<T>) -> (r: Vec<T>) {
        let mut a = a;
        let mut b = b;
        a.append(&mut b);
        a
    }
}

impl<T> Monoid for VecAppend<T> {
    open spec fn unit() -> Seq<T> {
        Seq::empty()
    }

    proof fn lemma_identity(a: Seq<T>) {
        assert(Seq::<T>::empty() + a =~= a);
        assert(a + Seq::<T>::empty() =~= a);
    }

    fn identity() -> (r: Vec<T>) {
        Vec::new()
    }
}

/// String concatenation; its model is the sequence of characters.
pub struct StringAppend;

impl Semigroup for StringAppend {
    type T = String;

    type Model = Seq<char>;

    open spec fn model(x: String) -> Seq<char> {
        x@
    }

    open spec fn op(a: Seq<char>, b: Seq<char>) -> Seq<char> {
        a + b
    }

    proof fn lemma_associative(a: Seq<char>, b: Seq<char>, c: Seq<char>) {
        assert((a + b) + c =~= a + (b + c));
    }

    fn append(a: String, b: String) -> (r: String) {
        let mut a = a;
        a.append(b.as_str());
        a
    }
}

impl Monoid for StringAppend {
    open spec fn unit() -> Seq<char> {
        Seq::empty()
    }

    proof fn lemma_identity(a: Seq<char>) {
        assert(Seq::<char>::empty() + a =~= a);
        assert(a + Seq::<char>::empty() =~= a);
    }

    fn identity() -> (r: String) {
        String::new()
    }
}

impl<A: Semigroup> Semigroup for (A,) {
    type T = (A::T,);

    type Model = (A::Model,);

    open spec fn model(x: (A::T,)) -> (A::Model,) {
        (A::model(x.0),)
    }

    open spec fn op(a: (A::Model,), b: (A::Model,)) -> (A::Model,) {
        (A::op(a.0, b.0),)
    }

    proof fn lemma_associative(a: (A::Model,), b: (A::Model,), c: (A::Model,)) {
        A::lemma_associative(a.0, b.0, c.0);
    }

    fn append(a: (A::T,), b: (A::T,)) -> (r: (A::T,)) {
        (A::append(a.0, b.0),)
    }
}

impl<A: Monoid> Monoid for (A,) {
    open spec fn unit() -> (A::Model,) {
        (A::unit(),)
    }

    proof fn lemma_identity(a: (A::Model,)) {
        A::lemma_identity(a.0);
    }

    fn identity() -> (r: (A::T,)) {
        (A::identity(),)
    }
}

impl<A: Semigroup, B: Semigroup> Semigroup for (A, B) {
    type T = (A::T, B::T);

    type Model = (A::Model, B::Model);

    open spec fn model(x: (A::T, B::T)) -> (A::Model, B::Model) {
        (A::model(x.0), B::model(x.1))
    }

    open spec fn op(a: (A::Model, B::Model), b: (A::Model, B::Model)) -> (A::Model, B::Model) {
        (A::op(a.0, b.0), B::op(a.1, b.1))
    }

    proof fn lemma_associative(
        a: (A::Model, B::Model),
        b: (A::Model, B::Model),
        c: (A::Model, B::Model),
    ) {
        A::lemma_associative(a.0, b.0, c.0);
        B::lemma_associative(a.1, b.1, c.1);
    }

    fn append(a: (A::T, B::T), b: (A::T, B::T)) -> (r: (A::T, B::T)) {
        (A::append(a.0, b.0), B::append(a.1, b.1))
    }
}

impl<A: Monoid, B: Monoid> Monoid for (A, B) {
    open spec fn unit() -> (A::Model, B::Model) {
        (A::unit(), B::unit())
    }

    proof fn lemma_identity(a: (A::Model, B::Model)) {
        A::lemma_identity(a.0);
        B::lemma_identity(a.1);
    }

    fn identity() -> (r: (A::T, B::T)) {
        (A::identity(), B::identity())
    }
}

impl<A: Semigroup, B: Semigroup, C: Semigroup> Semigroup for (A, B, C) {
    type T = (A::T, B::T, C::T);

    type Model = (A::Model, B::Model, C::Model);

    open spec fn model(x: (A::T, B::T, C::T)) -> (A::Model, B::Model, C::Model) {
        (A::model(x.0), B::model(x.1), C::model(x.2))
    }

    open spec fn op(
        a: (A::Model, B::Model, C::Model),
        b: (A::Model, B::Model, C::Model),
    ) -> (A::Model, B::Model, C::Model) {
        (A::op(a.0, b.0), B::op(a.1, b.1), C::op(a.2, b.2))
    }

    proof fn lemma_associative(
        a: (A::Model, B::Model, C::Model),
        b: (A::Model, B::Model, C::Model),
        c: (A::Model, B::Model, C::Model),
    ) {
        A::lemma_associative(a.0, b.0, c.0);
        B::lemma_associative(a.1, b.1, c.1);
        C::lemma_associative(a.2, b.2, c.2);
    }

    fn append(a: (A::T, B::T, C::T), b: (A::T, B::T, C::T)) -> (r: (A::T, B::T, C::T)) {
        (A::append(a.0, b.0), B::append(a.1, b.1), C::append(a.2, b.2))
    }
}

impl<A: Monoid, B: Monoid, C: Monoid> Monoid for (A, B, C) {
    open spec fn unit() -> (A::Model, B::Model, C::Model) {
        (A::unit(), B::unit(), C::unit())
    }

    proof fn lemma_identity(a: (A::Model, B::Model, C::Model)) {
        A::lemma_identity(a.0);
        B::lemma_identity(a.1);
        C::lemma_identity(a.2);
    }

    fn identity() -> (r: (A::T, B::T, C::T)) {
        (A::identity(), B::identity(), C::identity())
    }
}

/// Any semigroup lifts to a monoid on `Option`, with `None` as the unit:
/// one-sided values pass through, two values combine under the inner
/// operation.
impl<A: Semigroup> Semigroup for Option<A> {
    type T = Option<A::T>;

    type Model = Option<A::Model>;

    open spec fn model(x: Option<A::T>) -> Option<A::Model> {
        match x {
            Some(a) => Some(A::model(a)),
            None => None,
        }
    }

    open spec fn op(a: Option<A::Model>, b: Option<A::Model>) -> Option<A::Model> {
        match (a, b) {
            (Some(x), Some(y)) => Some(A::op(x, y)),
            (Some(x), None) => Some(x),
            (None, Some(y)) => Some(y),
            (None, None) => None,
        }
    }

    proof fn lemma_associative(a: Option<A::Model>, b: Option<A::Model>, c: Option<A::Model>) {
        if a is Some && b is Some && c is Some {
            A::lemma_associative(a->0, b->0, c->0);
        }
    }

    fn append(a: Option<A::T>, b: Option<A::T>) -> (r: Option<A::T>) {
        match (a, b) {
            (Some(x), Some(y)) => Some(A::append(x, y)),
            (Some(x), None) => Some(x),
            (None, Some(y)) => Some(y),
            (None, None) => None,
        }
    }
}

impl<A: Semigroup> Monoid for Option<A> {
    open spec fn unit() -> Option<A::Model> {
        None
    }

    proof fn lemma_identity(a: Option<A::Model>) {
    }

    fn identity() -> (r: Option<A::T>) {
        None
    }
}

} // verus!
