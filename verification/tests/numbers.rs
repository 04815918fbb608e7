use rt_plot::integer::Integer;
use rt_plot::natural::Natural;
use rt_plot::rational::Rational;

fn value(n: &Natural) -> u128 {
    let limbs = n.to_limbs();
    let mut total: u128 = 0;
    for (i, limb) in limbs.iter().enumerate() {
        if *limb != 0 {
            assert!(i < 4);
            total += (*limb as u128) << (32 * i);
        }
    }
    total
}

#[test]
fn natural_holds_a_machine_number() {
    for x in [0u64, 1, 0xffff_ffff, 0x1_0000_0000, u64::MAX] {
        assert_eq!(value(&Natural::from_u64(x)), x as u128);
    }
    assert!(Natural::zero().is_zero());
    assert!(!Natural::from_u64(1).is_zero());
}

#[test]
fn natural_limbs_are_least_significant_first() {
    assert_eq!(value(&Natural::from_limbs(vec![1, 2])), 1 + (2u128 << 32));
    assert_eq!(value(&Natural::from_limbs(vec![0, 0, 0])), 0);
    assert!(Natural::from_limbs(vec![0, 0]).is_zero());
}

#[test]
fn natural_sum_carries() {
    let a = Natural::from_u64(u64::MAX);
    let b = Natural::from_u64(1);
    assert_eq!(value(&a.add(&b)), 1u128 << 64);
    assert_eq!(value(&a.add(&a)), 2 * (u64::MAX as u128));
    assert_eq!(value(&Natural::zero().add(&b)), 1);
}

#[test]
fn natural_difference_borrows() {
    let a = Natural::from_u64(u64::MAX).add(&Natural::from_u64(1));
    let b = Natural::from_u64(1);
    assert_eq!(value(&a.sub(&b)), u64::MAX as u128);
    assert_eq!(value(&a.sub(&a)), 0);
    assert_eq!(value(&a.sub(&Natural::zero())), 1u128 << 64);
}

#[test]
fn natural_product_is_exact() {
    let a = Natural::from_u64(u64::MAX);
    assert_eq!(value(&a.mul(&a)), (u64::MAX as u128) * (u64::MAX as u128));
    assert_eq!(value(&a.mul(&Natural::zero())), 0);
    assert_eq!(value(&Natural::from_u64(12345).mul(&Natural::from_u64(67890))), 12345 * 67890);
    assert_eq!(value(&a.mul_limb(3)), 3 * (u64::MAX as u128));
    assert_eq!(value(&Natural::from_u64(5).shift_limbs(2)), 5u128 << 64);
}

#[test]
fn natural_order_tells_smaller_equal_larger() {
    let small = Natural::from_u64(5);
    let large = Natural::from_u64(u64::MAX).add(&Natural::from_u64(7));
    assert_eq!(small.order(&large), -1);
    assert_eq!(large.order(&small), 1);
    assert_eq!(small.order(&Natural::from_limbs(vec![5, 0, 0])), 0);
    assert_eq!(Natural::from_limbs(vec![0, 1]).order(&Natural::from_limbs(vec![9])), 1);
}

#[test]
fn integer_arithmetic_keeps_signs() {
    let a = Integer::from_i64(-7);
    let b = Integer::from_i64(3);
    assert!(a.add(&b).equals(&Integer::from_i64(-4)));
    assert!(a.sub(&b).equals(&Integer::from_i64(-10)));
    assert!(b.sub(&a).equals(&Integer::from_i64(10)));
    assert!(a.mul(&b).equals(&Integer::from_i64(-21)));
    assert!(a.mul(&a).equals(&Integer::from_i64(49)));
    assert!(a.neg().equals(&Integer::from_i64(7)));
    assert!(a.is_negative());
    assert!(!b.is_negative());
    assert!(!a.sub(&a).is_negative());
    assert!(a.sub(&a).is_zero());
    assert!(a.less_than(&b));
    assert!(!b.less_than(&a));
    assert!(!a.less_than(&a));
}

#[test]
fn integer_holds_the_ends_of_the_machine_range() {
    let low = Integer::from_i64(i64::MIN);
    let high = Integer::from_i64(i64::MAX);
    assert!(low.is_negative());
    assert!(low.add(&high).equals(&Integer::from_i64(-1)));
    assert_eq!(value(&low.magnitude()), 1u128 << 63);
    assert!(Integer::from_u64(u64::MAX).sub(&high).sub(&high).equals(&Integer::from_i64(1)));
    assert!(low.mul(&low).equals(&Integer::from_parts(false, Natural::from_limbs(vec![0, 0, 0, 0x4000_0000]))));
}

#[test]
fn integer_zero_has_no_sign() {
    let minus_zero = Integer::from_parts(true, Natural::zero());
    assert!(minus_zero.is_zero());
    assert!(!minus_zero.is_negative());
    assert!(minus_zero.equals(&Integer::zero()));
}

#[test]
fn rational_arithmetic_is_exact() {
    let half = Rational::from_ratio(1, 2);
    let third = Rational::from_ratio(1, 3);
    assert!(half.add(&third).equals(&Rational::from_ratio(5, 6)));
    assert!(half.sub(&third).equals(&Rational::from_ratio(1, 6)));
    assert!(half.mul(&third).equals(&Rational::from_ratio(1, 6)));
    assert!(half.div(&third).equals(&Rational::from_ratio(3, 2)));
    assert!(half.neg().equals(&Rational::from_ratio(-1, 2)));
    assert!(third.less_than(&half));
    assert!(!half.less_than(&third));
    assert!(half.neg().less_than(&third));
}

#[test]
fn rational_sign_sits_in_the_numerator() {
    let a = Rational::from_ratio(3, -6);
    assert!(a.equals(&Rational::from_ratio(-1, 2)));
    assert!(a.is_negative());
    assert!(!a.denominator().is_zero());
    assert!(a.numerator().is_negative());
    let b = Rational::from_ratio(-3, -6);
    assert!(b.equals(&Rational::from_ratio(1, 2)));
    assert!(!b.is_negative());
    assert!(Rational::from_ratio(0, -5).is_zero());
}

#[test]
fn rational_division_by_a_negative_turns_the_sign() {
    let a = Rational::from_ratio(1, 2);
    let b = Rational::from_ratio(-1, 4);
    assert!(a.div(&b).equals(&Rational::from_i64(-2)));
    assert!(b.div(&b).equals(&Rational::from_i64(1)));
}

#[test]
fn rational_parts_give_the_fraction_back() {
    let a = Rational::from_ratio(6, -4);
    let again = Rational::new(a.numerator(), Integer::from_parts(false, a.denominator()));
    assert!(again.equals(&a));
    assert!(a.duplicate().equals(&a));
}
