use strain::natural::{Natural, ParseNaturalError};

fn num(text: &str) -> Natural {
    Natural::from_decimal(text).unwrap()
}

#[test]
fn decimal_round_trip() {
    let text = "340282366920938463463374607431768211457";
    assert_eq!(num(text).to_decimal(), text);
    assert_eq!(num("0").to_decimal(), "0");
    assert_eq!(num("000123").to_decimal(), "123");
}

#[test]
fn from_u64_writes_its_value() {
    assert_eq!(Natural::from_u64(0).to_decimal(), "0");
    assert_eq!(Natural::from_u64(18446744073709551615).to_decimal(), "18446744073709551615");
}

#[test]
fn text_that_is_no_integer_is_invalid() {
    assert_eq!(Natural::from_decimal("").unwrap_err(), ParseNaturalError::Invalid);
    assert_eq!(Natural::from_decimal("12a").unwrap_err(), ParseNaturalError::Invalid);
    assert_eq!(Natural::from_decimal("-").unwrap_err(), ParseNaturalError::Invalid);
}

#[test]
fn negative_text_is_refused() {
    assert_eq!(Natural::from_decimal("-15").unwrap_err(), ParseNaturalError::Negative);
    assert_eq!(Natural::from_decimal("-0").unwrap().to_decimal(), "0");
}

#[test]
fn signs_blanks_and_underscores_are_read_as_rug_reads_them() {
    assert_eq!(num("+15").to_decimal(), "15");
    assert_eq!(num("1 000_000").to_decimal(), "1000000");
}

#[test]
fn square_multiplies_by_itself() {
    assert_eq!(num("18446744073709551616").square().to_decimal(), "340282366920938463463374607431768211456");
    assert_eq!(num("13").square().to_decimal(), "169");
}

#[test]
fn plus_and_minus() {
    let a = num("18446744073709551615");
    let one = Natural::from_u64(1);
    assert_eq!(a.plus(&one).to_decimal(), "18446744073709551616");
    assert_eq!(a.plus(&one).minus(&one).to_decimal(), "18446744073709551615");
    assert_eq!(a.minus(&a).to_decimal(), "0");
}

#[test]
fn modulo_gives_the_remainder() {
    assert_eq!(num("1000000000000000000000").modulo(&num("7")).to_decimal(), "6");
    assert_eq!(num("14").modulo(&num("7")).to_decimal(), "0");
    assert_eq!(num("3").modulo(&num("7")).to_decimal(), "3");
}

#[test]
fn sqrt_rounds_down() {
    assert_eq!(num("104").sqrt().to_decimal(), "10");
    assert_eq!(num("100").sqrt().to_decimal(), "10");
    assert_eq!(num("99").sqrt().to_decimal(), "9");
    assert_eq!(num("0").sqrt().to_decimal(), "0");
    assert_eq!(num("340282366920938463463374607431768211456").sqrt().to_decimal(), "18446744073709551616");
}

#[test]
fn perfect_squares_are_recognised() {
    for k in [0u64, 1, 4, 9, 169] {
        assert!(Natural::from_u64(k).is_perfect_square());
    }
    for k in [2u64, 3, 15, 170] {
        assert!(!Natural::from_u64(k).is_perfect_square());
    }
}

#[test]
fn power_of_two_shifts_one() {
    assert_eq!(Natural::power_of_two(0).to_decimal(), "1");
    assert_eq!(Natural::power_of_two(10).to_decimal(), "1024");
    assert_eq!(Natural::power_of_two(64).to_decimal(), "18446744073709551616");
    assert_eq!(Natural::power_of_two(127).to_decimal(), "170141183460469231731687303715884105728");
}

#[test]
fn is_zero_looks_at_every_limb() {
    assert!(Natural::from_u64(0).is_zero());
    assert!(num("0").is_zero());
    assert!(!Natural::from_u64(1).is_zero());
    assert!(!Natural::power_of_two(64).is_zero());
    assert!(Natural::power_of_two(64).minus(&Natural::power_of_two(64)).is_zero());
}

#[test]
fn clone_keeps_the_value() {
    let a = num("123456789012345678901234567890");
    assert_eq!(a.clone().to_decimal(), a.to_decimal());
}

#[test]
fn at_most_orders_the_numbers() {
    let small = num("18446744073709551615");
    let large = num("18446744073709551616");
    assert!(small.at_most(&large));
    assert!(!large.at_most(&small));
    assert!(small.at_most(&small));
    assert!(Natural::from_u64(0).at_most(&small));
}
