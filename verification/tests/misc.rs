use coop_runtime::results::{err, ok};
use coop_runtime::timing::accuracy_delta;
use coop_runtime::typelist::{cons, const_sum, len, ConstSum, ConstUsize, Len, Nil, Sum};
use coop_runtime::xstr::XStr;

#[test]
fn typelist_len_and_sum() {
    let list = cons(1usize, cons(2usize, cons(3usize, Nil)));
    assert_eq!(len(&list), 3);
    assert_eq!(list.sum(), 6);
    assert_eq!(len(&Nil), 0);
    assert_eq!(Nil.sum(), 0);
}

#[test]
fn typelist_const_sum() {
    let usize_list = cons(
        ConstUsize::<1>,
        cons(ConstUsize::<2>, cons(ConstUsize::<3>, Nil)),
    );
    assert_eq!(const_sum(&usize_list), 6);
    assert_eq!(const_sum(&Nil), 0);
    assert_eq!(const_sum(&ConstUsize::<42>), 42);
}

#[test]
fn question_mark_flow() {
    // the happy path unwraps, the sad path propagates the error
    fn run() -> Result<(), &'static str> {
        let x = match ok(1) {
            Ok(t) => t,
            Err(_e) => return Err("unexpected"),
        };
        assert_eq!(x, 1);
        let _ = match err("boom!") {
            Ok(t) => t,
            Err(e) => return Err(e),
        };
        unreachable!()
    }
    assert_eq!(run(), Err("boom!"));
    assert_eq!(ok(7usize), Ok(7usize));
    assert_eq!(err(5u8), Err(5u8));
}

#[test]
fn byte_strings_round_trip() {
    let s = XStr::from_str("hello");
    assert_eq!(s.len(), 5);
    let owned = s.to_owned();
    assert_eq!(owned.len(), 5);
    let borrowed = owned.borrow();
    assert_eq!(borrowed.len(), 5);

    let raw = XStr::from_bytes(&[104, 105]);
    assert_eq!(raw.to_owned().len(), 2);
}

#[test]
fn accuracy_delta_is_the_absolute_miss() {
    assert_eq!(accuracy_delta(50_000_000, 50_120_000), 120_000);
    assert_eq!(accuracy_delta(50_000_000, 49_999_000), 1_000);
    assert_eq!(accuracy_delta(1_000, 1_000), 0);
}
