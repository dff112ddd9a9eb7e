use coop_runtime::monoid::{times, Add, Max, Monoid, Mul, Semigroup, StringAppend, VecAppend};

#[test]
fn add_monoid_laws_on_samples() {
    assert_eq!(Add::append(2, 3), 5);
    assert_eq!(Add::append(7, Add::identity()), 7);
    assert_eq!(Add::append(Add::identity(), 7), 7);
    assert_eq!(
        Add::append(Add::append(11, 4), 9),
        Add::append(11, Add::append(4, 9))
    );
    // the operation saturates instead of overflowing
    assert_eq!(Add::append(usize::MAX, 1), usize::MAX);
    assert_eq!(Add::append(usize::MAX - 1, 1), usize::MAX);
}

#[test]
fn mul_monoid_laws_on_samples() {
    assert_eq!(Mul::append(3, 4), 12);
    assert_eq!(Mul::append(9, Mul::identity()), 9);
    assert_eq!(Mul::append(Mul::identity(), 9), 9);
    assert_eq!(
        Mul::append(Mul::append(2, 5), 7),
        Mul::append(2, Mul::append(5, 7))
    );
    // the operation saturates instead of overflowing
    assert_eq!(Mul::append(usize::MAX, 2), usize::MAX);
    assert_eq!(Mul::append(usize::MAX / 2, 3), usize::MAX);
    assert_eq!(Mul::append(usize::MAX, 0), 0);
}

#[test]
fn max_monoid_laws_on_samples() {
    assert_eq!(Max::append(3, 4), 4);
    assert_eq!(Max::append(4, 3), 4);
    assert_eq!(Max::append(5, Max::identity()), 5);
    assert_eq!(Max::append(Max::identity(), 5), 5);
    assert_eq!(
        Max::append(Max::append(1, 9), 4),
        Max::append(1, Max::append(9, 4))
    );
}

#[test]
fn vec_append_concatenates() {
    let a = vec![1usize, 2];
    let b = vec![3usize];
    assert_eq!(VecAppend::append(a, b), vec![1, 2, 3]);
    let id: Vec<usize> = VecAppend::<usize>::identity();
    assert_eq!(id, Vec::<usize>::new());
    assert_eq!(VecAppend::append(vec![4usize], id), vec![4]);
}

#[test]
fn string_append_concatenates() {
    let a = String::from("foo");
    let b = String::from("bar");
    assert_eq!(StringAppend::append(a, b), String::from("foobar"));
    let id = StringAppend::identity();
    assert_eq!(id, String::new());
    assert_eq!(
        StringAppend::append(String::from("x"), StringAppend::identity()),
        String::from("x")
    );
}

#[test]
fn tuple_monoids_combine_componentwise() {
    assert_eq!(<(Add,)>::append((2,), (3,)), (5,));
    assert_eq!(<(Add, Mul)>::append((1, 2), (3, 4)), (4, 8));
    assert_eq!(<(Add, Mul)>::identity(), (0, 1));
    assert_eq!(
        <(Add, Mul, Max)>::append((1, 2, 3), (4, 5, 6)),
        (5, 10, 6)
    );
    assert_eq!(<(Add, Mul, Max)>::identity(), (0, 1, 0));
}

#[test]
fn option_lifts_a_semigroup_to_a_monoid() {
    type M = Option<Max>;
    assert_eq!(M::append(Some(3), Some(7)), Some(7));
    assert_eq!(M::append(Some(3), None), Some(3));
    assert_eq!(M::append(None, Some(7)), Some(7));
    assert_eq!(M::append(None, None), None);
    assert_eq!(M::identity(), None);
    assert_eq!(
        M::append(M::append(Some(1), None), Some(2)),
        M::append(Some(1), M::append(None, Some(2)))
    );
}

#[test]
fn times_repeats_the_operation() {
    assert_eq!(times::<Add, _>(5, 3, |x| *x), 15);
    assert_eq!(times::<Mul, _>(2, 10, |x| *x), 1024);
    assert_eq!(times::<Max, _>(9, 4, |x| *x), 9);
    assert_eq!(times::<Add, _>(42, 0, |x| *x), 0);
    assert_eq!(times::<Mul, _>(42, 0, |x| *x), 1);
    assert_eq!(
        times::<VecAppend<usize>, _>(vec![1, 2], 2, |v| v.clone()),
        vec![1, 2, 1, 2]
    );
    assert_eq!(
        times::<StringAppend, _>(String::from("ab"), 3, |s| s.clone()),
        String::from("ababab")
    );
}
