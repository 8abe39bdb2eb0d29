use indexer_events::amount::{Amount, DecimalParts};

#[test]
fn sum_of_opposites_is_zero() {
    let a = Amount::from_u128(340282366920938463463374607431768211455);
    let b = a.negated();
    assert!(a.plus(&b).is_zero());
    assert!(b.is_negative());
    assert!(a.minus(&b).same(&a.plus(&a)));
}

#[test]
fn amounts_are_written_in_decimal_digits() {
    assert_eq!(Amount::zero().to_text(), "0");
    assert_eq!(Amount::from_u128(0).to_text(), "0");
    assert_eq!(Amount::from_u128(7).to_text(), "7");
    assert_eq!(Amount::from_u128(1000).to_text(), "1000");
    assert_eq!(Amount::from_u128(1000).negated().to_text(), "-1000");
    assert_eq!(Amount::from_u128(u128::MAX).to_text(), "340282366920938463463374607431768211455");
    let twice = Amount::from_u128(u128::MAX).plus(&Amount::from_u128(u128::MAX));
    assert_eq!(twice.to_text(), "680564733841876926926749214863536422910");
    assert_eq!(Amount::zero().negated().to_text(), "0");
}

#[test]
fn sums_carry_and_differences_borrow() {
    let a = Amount::from_u128(999);
    let b = Amount::from_u128(1);
    assert_eq!(a.plus(&b).to_text(), "1000");
    assert_eq!(a.plus(&b).minus(&b).to_text(), "999");
    assert_eq!(b.minus(&a).to_text(), "-998");
    assert_eq!(a.negated().plus(&b).to_text(), "-998");
    assert_eq!(a.negated().minus(&b).to_text(), "-1000");
    assert_eq!(Amount::from_u128(1000).minus(&Amount::from_u128(1)).to_text(), "999");
    assert_eq!(Amount::from_u128(5).minus(&Amount::from_u128(5)), Amount::zero());
    assert!(!Amount::from_u128(5).minus(&Amount::from_u128(5)).is_negative());
    assert!(Amount::from_u128(5).same(&Amount::from_u128(5)));
    assert!(!Amount::from_u128(5).same(&Amount::from_u128(5).negated()));
    assert_eq!(Amount::from_u128(12).clone(), Amount::from_u128(12));
}

#[test]
fn whole_numbers_are_read_however_they_are_written() {
    assert_eq!(Amount::parse_decimal("100"), Some(Amount::from_u128(100)));
    assert_eq!(Amount::parse_decimal("+100"), Some(Amount::from_u128(100)));
    assert_eq!(Amount::parse_decimal("-100"), Some(Amount::from_u128(100).negated()));
    assert_eq!(Amount::parse_decimal("100.00"), Some(Amount::from_u128(100)));
    assert_eq!(Amount::parse_decimal("0.0"), Some(Amount::zero()));
    assert_eq!(Amount::parse_decimal("-0"), Some(Amount::zero()));
    assert_eq!(Amount::parse_decimal("007"), Some(Amount::from_u128(7)));
    assert_eq!(
        Amount::parse_decimal("340282366920938463463374607431768211456").map(|a| a.to_text()),
        Some("340282366920938463463374607431768211456".to_string())
    );
}

#[test]
fn fractions_exponents_and_other_texts_are_no_whole_numbers() {
    assert_eq!(Amount::parse_decimal("1.5"), None);
    assert_eq!(Amount::parse_decimal("0.001"), None);
    assert_eq!(Amount::parse_decimal("1e2"), None);
    assert_eq!(Amount::parse_decimal("1E2"), None);
    assert_eq!(Amount::parse_decimal(""), None);
    assert_eq!(Amount::parse_decimal("abc"), None);
    assert_eq!(Amount::parse_decimal(" 1"), None);
    assert_eq!(Amount::parse_decimal("-"), None);
}

#[test]
fn parts_with_a_scale_stand_for_a_whole_number_or_for_none() {
    let parts = |negative: bool, digits: Vec<u8>, scale: i64| DecimalParts { negative, digits, scale };
    assert_eq!(Amount::from_parts(&parts(false, vec![0, 0, 5, 1], 2)), Some(Amount::from_u128(15)));
    assert_eq!(Amount::from_parts(&parts(true, vec![0, 0, 5, 1], 2)), Some(Amount::from_u128(15).negated()));
    assert_eq!(Amount::from_parts(&parts(false, vec![0, 1, 5, 1], 2)), None);
    assert_eq!(Amount::from_parts(&parts(false, vec![0, 0], 5)), Some(Amount::zero()));
    assert_eq!(Amount::from_parts(&parts(true, vec![0], 0)), Some(Amount::zero()));
    assert_eq!(Amount::from_parts(&parts(false, vec![1], 5)), None);
    assert_eq!(Amount::from_parts(&parts(false, vec![3, 2, 1], 0)), Some(Amount::from_u128(123)));
    assert_eq!(Amount::from_parts(&parts(false, vec![3, 0, 0], 0)), Some(Amount::from_u128(3)));
    assert_eq!(Amount::from_parts(&parts(false, vec![3, 10], 0)), None);
    assert_eq!(Amount::from_parts(&parts(false, vec![3], -1)), None);
    assert_eq!(Amount::from_parts(&parts(false, vec![], 0)), Some(Amount::zero()));
}

fn signed(n: i128) -> Amount {
    if n < 0 {
        Amount::from_u128(n.unsigned_abs()).negated()
    } else {
        Amount::from_u128(n as u128)
    }
}

#[test]
fn arithmetic_agrees_with_machine_integers() {
    let samples: Vec<i128> = vec![
        0, 1, -1, 9, 10, -10, 99, 100, 101, -999, 1000, 12345, -54321, 999_999_999,
        1_000_000_000, i64::MAX as i128, i64::MIN as i128, 10i128.pow(30), -(10i128.pow(30)) + 1,
    ];
    for &a in &samples {
        for &b in &samples {
            let (x, y) = (signed(a), signed(b));
            assert_eq!(x.plus(&y).to_text(), (a + b).to_string());
            assert_eq!(x.minus(&y).to_text(), (a - b).to_string());
            assert_eq!(x.same(&y), a == b);
            assert_eq!(x.plus(&y), signed(a + b));
        }
        let x = signed(a);
        assert_eq!(x.negated().to_text(), (-a).to_string());
        assert_eq!(x.is_negative(), a < 0);
        assert_eq!(x.is_zero(), a == 0);
        assert_eq!(Amount::parse_decimal(&a.to_string()), Some(x));
    }
}
