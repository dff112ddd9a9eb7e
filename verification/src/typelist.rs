use vstd::prelude::*;

verus! {

/// The empty compile-time list.
pub struct Nil;

/// A compile-time list cell: a head value in front of the rest of the list.
pub struct Cons<H, T> {
    pub head: H,
    pub tail: T,
}

/// Builds a list cell.
pub fn cons<H, T>(head: H, tail: T) -> (r: Cons<H, T>)
    ensures
        r.head == head,
        r.tail == tail,
{
    Cons { head, tail }
}

/// A marker type carrying a `usize` in its type.
pub struct ConstUsize<const N: usize>;

/// The length of a list shape, known from the type alone.
pub trait Len: Sized {
    /// The length, as a mathematical number.
    spec fn len_spec() -> nat;

    /// The length, computed.
    fn length() -> (r: usize)
        requires
            Self::len_spec() <= usize::MAX,
        ensures
            r == Self::len_spec(),
    ;
}

impl Len for Nil {
    open spec fn len_spec() -> nat {
        0
    }

    fn length() -> (r: usize) {
        0
    }
}

impl<H, T: Len> Len for Cons<H, T> {
    open spec fn len_spec() -> nat {
        T::len_spec() + 1
    }

    fn length() -> (r: usize) {
        1 + T::length()
    }
}

/// The length of `list`.
pub fn len<L: Len>(list: &L) -> (r: usize)
    requires
        L::len_spec() <= usize::MAX,
    ensures
        r == L::len_spec(),
{
    L::length()
}

/// Summing the `usize` elements of a list.
pub trait Sum {
    /// The sum of the elements, as a mathematical number.
    spec fn sum_spec(&self) -> nat;

    /// The sum of the elements.
    fn sum(&self) -> (r: usize)
        requires
            self.sum_spec() <= usize::MAX,
        ensures
            r == self.sum_spec(),
    ;
}

impl Sum for Nil {
    open spec fn sum_spec(&self) -> nat {
        0
    }

    fn sum(&self) -> (r: usize) {
        0
    }
}

impl<T: Sum> Sum for Cons<usize, T> {
    open spec fn sum_spec(&self) -> nat {
        self.head as nat + self.tail.sum_spec()
    }

    fn sum(&self) -> (r: usize) {
        self.head + self.tail.sum()
    }
}

/// Summing values carried in the types of a list shape.
pub trait ConstSum: Sized {
    /// The sum, as a mathematical number.
    spec fn const_sum_spec() -> nat;

    /// The sum, computed.
    fn const_sum_value() -> (r: usize)
        requires
            Self::const_sum_spec() <= usize::MAX,
        ensures
            r == Self::const_sum_spec(),
    ;
}

impl ConstSum for Nil {
    open spec fn const_sum_spec() -> nat {
        0
    }

    fn const_sum_value() -> (r: usize) {
        0
    }
}

impl<const N: usize> ConstSum for ConstUsize<N> {
    open spec fn const_sum_spec() -> nat {
        N as nat
    }

    fn const_sum_value() -> (r: usize) {
        N
    }
}

impl<H: ConstSum, T: ConstSum> ConstSum for Cons<H, T> {
    open spec fn const_sum_spec() -> nat {
        H::const_sum_spec() + T::const_sum_spec()
    }

    fn const_sum_value() -> (r: usize) {
        H::const_sum_value() + T::const_sum_value()
    }
}

/// The sum of the values carried in `list`'s type.
pub fn const_sum<L: ConstSum>(list: &L) -> (r: usize)
    requires
        L::const_sum_spec() <= usize::MAX,
    ensures
        r == L::const_sum_spec(),
{
    L::const_sum_value()
}

} // verus!
