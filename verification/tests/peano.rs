use coop_runtime::peano::Peano;

/// Builds a numeral from its binary digits, most significant first.
fn num(bits: &[bool]) -> Peano {
    let mut n = Peano::zero();
    for &b in bits {
        n = n.push_bit(b);
    }
    n
}

#[test]
fn test_add() {
    let one = Peano::zero().succ();
    let four = Peano::zero().succ().succ().succ().succ();
    let two = Peano::zero().succ().succ();
    let three = Peano::zero().succ().succ().succ();

    let two_plus_three: usize = two.add(three).value();
    assert_eq!(two_plus_three, 5);
    let one_plus_four: usize = one.add(four).value();
    assert_eq!(one_plus_four, 5);
}

#[test]
fn test_num_macro() {
    assert_eq!(num(&[true]).value(), 1);
    assert_eq!(num(&[true, false]).value(), 2);
    assert_eq!(num(&[true, false, true, false]).value(), 10);
    assert_eq!(
        num(&[true, true, true, true, true, true, true, true]).value(),
        255
    );
}
