use nesse_bank::money::Money;
use nesse_bank::money::MoneyParseError;
use nesse_bank::tx::incoming::IncomingTxError;

#[test]
fn money_ensure_non_negative_makes_zero_positive() {
    assert_eq!(
        Money::from_str_exact("-0.0")
            .unwrap()
            .ensure_non_negative()
            .unwrap(),
        Money::from_str_exact("0.0").unwrap()
    );
}

#[test]
fn money_ensure_non_negative_fails_on_negative() {
    assert_eq!(
        Money::from_str_exact("-1.0")
            .unwrap()
            .ensure_non_negative()
            .ok(),
        None
    );
}

#[test]
fn money_ensure_non_negative_leaves_positive_untouched() {
    assert_eq!(
        Money::from_str_exact("1.0")
            .unwrap()
            .ensure_non_negative()
            .unwrap(),
        Money::from_str_exact("1.0").unwrap()
    );
}

#[test]
fn money_parses_exact_minor_units() {
    assert_eq!(Money::from_str_exact("789.1112").unwrap(), Money::from_units(7_891_112));
    assert_eq!(Money::from_str_exact("1.5").unwrap(), Money::from_units(15_000));
    assert_eq!(Money::from_str_exact("+2").unwrap(), Money::from_units(20_000));
    assert_eq!(Money::from_str_exact("0.0001").unwrap(), Money::from_units(1));
    assert_eq!(Money::from_str_exact("5").unwrap(), Money::from_units(50_000));
    assert_eq!(Money::from_str_exact("-1.5").unwrap(), Money::from_units(-15_000));
    assert_eq!(Money::from_str_exact("007").unwrap(), Money::from_units(70_000));
}

#[test]
fn money_rejects_malformed_text() {
    assert_eq!(Money::from_str_exact(""), Err(MoneyParseError::Empty));
    assert_eq!(Money::from_str_exact("abc"), Err(MoneyParseError::Empty));
    assert_eq!(Money::from_str_exact("1x2"), Err(MoneyParseError::InvalidCharacter));
    assert_eq!(Money::from_str_exact("1.2.3"), Err(MoneyParseError::InvalidCharacter));
    assert_eq!(Money::from_str_exact(".5"), Err(MoneyParseError::Empty));
    assert_eq!(Money::from_str_exact("1."), Err(MoneyParseError::Empty));
    assert_eq!(
        Money::from_str_exact("1.12345"),
        Err(MoneyParseError::TooManyFractionDigits)
    );
    assert_eq!(
        Money::from_str_exact("99999999999999999999999"),
        Err(MoneyParseError::OutOfRange)
    );
}

#[test]
fn money_formats_exactly() {
    assert_eq!(Money::from_units(55_000).to_decimal_string(), "5.5");
    assert_eq!(Money::from_units(0).to_decimal_string(), "0");
    assert_eq!(Money::from_units(-15_000).to_decimal_string(), "-1.5");
    assert_eq!(Money::from_units(7_891_112).to_decimal_string(), "789.1112");
    assert_eq!(Money::from_units(500).to_decimal_string(), "0.05");
    assert_eq!(Money::from_units(10_000).to_decimal_string(), "1");
    assert_eq!(Money::from_units(1).to_decimal_string(), "0.0001");
}

#[test]
fn money_checked_arithmetic_is_exact() {
    let a = Money::from_str_exact("0.1").unwrap();
    let mut sum = Money::zero();
    for _ in 0..10 {
        sum = sum.checked_add(a).unwrap();
    }
    assert_eq!(sum, Money::from_str_exact("1").unwrap());
    assert_eq!(
        sum.checked_sub(Money::from_str_exact("1").unwrap()).unwrap(),
        Money::zero()
    );
    assert_eq!(Money::from_units(i64::MAX).checked_add(Money::from_units(1)), None);
}

#[test]
fn negative_amount_error_carries_its_kind() {
    let e = Money::from_str_exact("-3").unwrap().ensure_non_negative();
    assert_eq!(e, Err(IncomingTxError::NegativeAmount));
}
