use sterling_ops::config::{
    parse_currency_config, phb_config, silver_standard_config, ConfigError, ConfigErrorKind,
};
use sterling_ops::convert::SterlingError;
use sterling_ops::currency::Currency;
use sterling_ops::{
    add_operation, copper_operation, default_operation, div_operation, mul_operation,
    sub_operation,
};

fn currencies() -> Vec<Currency> {
    vec![
        Currency::new("penny", 1, "p", Some("pence".to_owned()), None),
        Currency::new("shilling", 100, "s", Some("sterling".to_owned()), None),
    ]
}

#[test]
fn test_add_operation_same_currencies() {
    let result = "3p".to_owned();
    assert_eq!(Ok(result), add_operation("1p", "2p", &currencies(), false));
}

#[test]
fn test_add_operation_diff_currencies() {
    let result = "1s, 1p".to_owned();
    assert_eq!(Ok(result), add_operation("1s", "1p", &currencies(), false));
}

#[test]
fn test_sub_operation_smaller_subtrahend() {
    let result = "1p".to_owned();
    assert_eq!(Ok(result), sub_operation("2p", "1p", &currencies(), false));
}

#[test]
fn test_sub_operation_larger_subtrahend() {
    let result = "1p".to_owned();
    assert_eq!(Ok(result), sub_operation("1p", "2p", &currencies(), false));
}

#[test]
fn test_mul_operation() {
    let result = "6p".to_owned();
    assert_eq!(Ok(result), mul_operation("3p", 2, &currencies(), false));
}

#[test]
fn test_div_operation_even_dividend() {
    let result = "2p".to_owned();
    assert_eq!(Ok(result), div_operation("4p", 2, &currencies(), false));
}

#[test]
fn test_div_operation_odd_dividend() {
    let result = "1p".to_owned();
    assert_eq!(Ok(result), div_operation("3p", 2, &currencies(), false));
}

#[test]
fn test_copper_operation() {
    let result = "103c".to_owned();
    assert_eq!(Ok(result), copper_operation("1s 3p", &currencies()));
}

#[test]
fn test_default_operation() {
    let result = "1 shilling";
    assert_eq!(Ok(result.to_owned()), default_operation("1g", &currencies(), true));
}

#[test]
fn test_default_operation_plural_output() {
    let result = "2 sterling";
    assert_eq!(Ok(result.to_owned()), default_operation("2g", &currencies(), true));
}

#[test]
fn add_in_full_names() {
    assert_eq!(
        Ok("1 shilling, 1 penny".to_owned()),
        add_operation("1s", "1p", &currencies(), true)
    );
    assert_eq!(
        Ok("2 sterling, 2 pence".to_owned()),
        add_operation("1s 1p", "1s 1p", &currencies(), true)
    );
}

#[test]
fn division_by_zero_fails() {
    assert_eq!(
        Err(SterlingError::DivisionByZero),
        div_operation("4p", 0, &currencies(), false)
    );
    assert_eq!(
        Err(SterlingError::DivisionByZero),
        div_operation("4x", 0, &currencies(), false)
    );
}

#[test]
fn invalid_operands_fail() {
    assert_eq!(
        Err(SterlingError::InvalidToken),
        add_operation("1p", "5x", &currencies(), false)
    );
    assert_eq!(
        Err(SterlingError::InvalidToken),
        sub_operation("p", "1p", &currencies(), false)
    );
    assert_eq!(Err(SterlingError::InvalidToken), mul_operation("1q", 2, &currencies(), false));
    assert_eq!(Err(SterlingError::InvalidToken), div_operation("1q", 2, &currencies(), false));
    assert_eq!(Err(SterlingError::InvalidToken), copper_operation("1q", &currencies()));
    assert_eq!(Err(SterlingError::InvalidToken), default_operation("1q", &currencies(), false));
}

#[test]
fn overflowing_operations_fail() {
    assert_eq!(
        Err(SterlingError::Overflow),
        mul_operation("2p", usize::MAX, &currencies(), false)
    );
    assert_eq!(
        Err(SterlingError::Overflow),
        add_operation("18446744073709551615p", "1p", &currencies(), false)
    );
}

#[test]
fn zero_total_is_the_empty_line() {
    assert_eq!(Ok(String::new()), add_operation("0p", "0s", &currencies(), false));
    assert_eq!(Ok(String::new()), sub_operation("1s", "100p", &currencies(), false));
    assert_eq!(Ok("0c".to_owned()), copper_operation("", &currencies()));
}

#[test]
fn copper_is_grouped() {
    assert_eq!(Ok("100,000c".to_owned()), copper_operation("10g", &silver_standard_config()));
}

#[test]
fn default_reads_grouped_handbook_amounts() {
    assert_eq!(
        Ok("10 sterling".to_owned()),
        default_operation("1,000c", &currencies(), true)
    );
    assert_eq!(
        Ok("1s, 50p".to_owned()),
        default_operation("3e", &currencies(), false)
    );
}

#[test]
fn handbook_table() {
    let table = phb_config();
    assert_eq!(table.len(), 5);
    assert_eq!(table[2].name, "electrum");
    assert_eq!(table[2].rate, 50);
    assert!(table[2].is_optional());
    assert!(!table[0].is_optional());
}

#[test]
fn optional_flag() {
    assert!(Currency::new("e", 5, "e", None, Some(true)).is_optional());
    assert!(!Currency::new("e", 5, "e", None, Some(false)).is_optional());
    assert!(!Currency::new("e", 5, "e", None, None).is_optional());
}

#[test]
fn config_read_is_kept() {
    let table = currencies();
    let result = parse_currency_config(Ok(table), Some("conf.yml")).unwrap();
    assert_eq!(result.len(), 2);
    assert_eq!(result[1].name, "shilling");
}

#[test]
fn missing_named_config_fails() {
    let error = ConfigError { desc: "not found".to_owned(), kind: ConfigErrorKind::NotFound };
    assert_eq!(
        Err("Sterling Error: Can't find configuration file: \"x.yml\"".to_owned()),
        parse_currency_config(Err(error), Some("x.yml")).map(|t| t.len())
    );
}

#[test]
fn missing_default_config_falls_back() {
    let error = ConfigError { desc: "not found".to_owned(), kind: ConfigErrorKind::NotFound };
    let table = parse_currency_config(Err(error), None).unwrap();
    assert_eq!(table.len(), 4);
    assert_eq!(table[0].rate, 1_000_000);
    assert_eq!(table[3].alias, "c");
    assert_eq!(table.len(), silver_standard_config().len());
}

#[test]
fn broken_config_fails() {
    let error = ConfigError { desc: "bad yaml".to_owned(), kind: ConfigErrorKind::Other };
    assert_eq!(
        Err("Sterling Error: bad yaml".to_owned()),
        parse_currency_config(Err(error), None).map(|t| t.len())
    );
}
