use battery_alert::decimal::Decimal;

#[test]
fn machine_integers_are_spelled_out() {
    assert_eq!(Decimal::from_u64(0).to_text(), "0");
    assert_eq!(Decimal::from_u64(7).to_text(), "7");
    assert_eq!(Decimal::from_u64(10).to_text(), "10");
    assert_eq!(Decimal::from_u64(75).to_text(), "75");
    assert_eq!(Decimal::from_u64(1_000_000).to_text(), "1000000");
    assert_eq!(Decimal::from_u64(u64::MAX).to_text(), "18446744073709551615");
}

#[test]
fn doubling_carries_into_a_new_digit() {
    assert_eq!(Decimal::from_u64(0).doubled().to_text(), "0");
    assert_eq!(Decimal::from_u64(4).doubled().to_text(), "8");
    assert_eq!(Decimal::from_u64(5).doubled().to_text(), "10");
    assert_eq!(Decimal::from_u64(99).doubled().to_text(), "198");
    assert_eq!(Decimal::from_u64(u64::MAX).doubled().to_text(), "36893488147419103230");
}

#[test]
fn doubling_agrees_with_machine_arithmetic() {
    let mut number: u64 = 1;
    let mut decimal = Decimal::from_u64(1);
    let mut step = 0;
    while step < 63 {
        number *= 2;
        decimal = decimal.doubled();
        assert_eq!(decimal.to_text(), format!("{}", number));
        step += 1;
    }
}

#[test]
fn repeated_doubling_leaves_machine_range() {
    let mut decimal = Decimal::from_u64(1);
    let mut step = 0;
    while step < 128 {
        decimal = decimal.doubled();
        step += 1;
    }
    assert_eq!(decimal.to_text(), "340282366920938463463374607431768211456");
}
