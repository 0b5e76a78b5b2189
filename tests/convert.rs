use std::collections::HashMap;

use sterling_ops::config::silver_standard_config;
use sterling_ops::convert::{calculate_total_copper_value, exchange_currencies, SterlingError};
use sterling_ops::currency::Currency;
use sterling_ops::get_rates;

fn standard_currencies() -> Vec<Currency> {
    vec![
        Currency::new("guilder", 10_000, "g", None, None),
        Currency::new("shilling", 100, "s", Some("sterling".to_owned()), None),
        Currency::new("penny", 1, "p", Some("pence".to_owned()), None),
    ]
}

fn currencies() -> Vec<Currency> {
    vec![
        Currency::new("penny", 1, "p", Some("pence".to_owned()), None),
        Currency::new("shilling", 100, "s", Some("sterling".to_owned()), None),
    ]
}

#[test]
fn test_calculate_total_copper_value() {
    let result = 10101usize;
    assert_eq!(
        Ok(result),
        calculate_total_copper_value("1g 1s 1p", &standard_currencies())
    );
}

#[test]
fn test_exchange_currencies() {
    let result = vec!["1g".to_owned(), "1s".to_owned(), "1p".to_owned()];
    assert_eq!(result, exchange_currencies(10101, &standard_currencies(), false));
}

#[test]
fn test_get_rates() {
    let rates: HashMap<_, _> = vec![("p".to_owned(), 1usize), ("s".to_owned(), 100usize)]
        .into_iter()
        .collect();
    assert_eq!(rates, get_rates(&currencies()));
}

#[test]
fn later_alias_wins_in_rates() {
    let table = vec![
        Currency::new("penny", 1, "p", None, None),
        Currency::new("pound", 240, "p", None, None),
    ];
    let rates = get_rates(&table);
    assert_eq!(rates.len(), 1);
    assert_eq!(rates.get("p"), Some(&240usize));
}

#[test]
fn unknown_alias_is_invalid() {
    assert_eq!(
        Err(SterlingError::InvalidToken),
        calculate_total_copper_value("5x", &silver_standard_config())
    );
}

#[test]
fn missing_digits_are_invalid() {
    let table = silver_standard_config();
    assert_eq!(Err(SterlingError::InvalidToken), calculate_total_copper_value("g", &table));
    assert_eq!(Err(SterlingError::InvalidToken), calculate_total_copper_value(",5g", &table));
    assert_eq!(Err(SterlingError::InvalidToken), calculate_total_copper_value("5", &table));
    assert_eq!(Err(SterlingError::InvalidToken), calculate_total_copper_value("1g 2q", &table));
    assert_eq!(Err(SterlingError::InvalidToken), calculate_total_copper_value("1g2s", &table));
}

#[test]
fn first_alias_of_a_word_counts() {
    let table = vec![
        Currency::new("penny", 1, "p", None, None),
        Currency::new("pound", 240, "p", None, None),
    ];
    assert_eq!(Ok(3), calculate_total_copper_value("3p", &table));
}

#[test]
fn grouping_commas_are_skipped() {
    let table = silver_standard_config();
    assert_eq!(Ok(1_000 * 10_000), calculate_total_copper_value("1,000g", &table));
    assert_eq!(Ok(1_002_034), calculate_total_copper_value("1p 2,0s 34c", &table));
}

#[test]
fn empty_and_blank_amounts_are_zero() {
    let table = silver_standard_config();
    assert_eq!(Ok(0), calculate_total_copper_value("", &table));
    assert_eq!(Ok(0), calculate_total_copper_value("  \t ", &table));
    assert_eq!(Ok(7), calculate_total_copper_value("  7c\n", &table));
}

#[test]
fn word_order_does_not_change_the_total() {
    let table = standard_currencies();
    assert_eq!(
        calculate_total_copper_value("1g 2s 3p", &table),
        calculate_total_copper_value("3p 1g 2s", &table)
    );
}

#[test]
fn too_large_a_total_overflows() {
    let table = silver_standard_config();
    assert_eq!(
        Err(SterlingError::Overflow),
        calculate_total_copper_value("99999999999999999999999c", &table)
    );
    assert_eq!(
        Err(SterlingError::Overflow),
        calculate_total_copper_value("18446744073709551615c 1c", &table)
    );
    assert_eq!(
        Err(SterlingError::Overflow),
        calculate_total_copper_value("18446744073709551615p", &table)
    );
    assert_eq!(
        Ok(usize::MAX),
        calculate_total_copper_value("18446744073709551615c", &table)
    );
}

#[test]
fn invalid_word_after_overflow_is_invalid() {
    let table = silver_standard_config();
    assert_eq!(
        Err(SterlingError::InvalidToken),
        calculate_total_copper_value("99999999999999999999999c 1x", &table)
    );
}

#[test]
fn one_platinum_in_the_silver_standard() {
    assert_eq!(vec!["1p".to_owned()], exchange_currencies(1_000_000, &silver_standard_config(), false));
}

#[test]
fn exchange_gives_back_the_total() {
    let result = vec!["1p".to_owned(), "23g".to_owned(), "45s".to_owned(), "67c".to_owned()];
    assert_eq!(result, exchange_currencies(1_234_567, &silver_standard_config(), false));
}

#[test]
fn exchange_sorts_by_rate() {
    assert_eq!(
        vec!["1s".to_owned(), "2p".to_owned()],
        exchange_currencies(102, &currencies(), false)
    );
}

#[test]
fn exchange_of_zero_is_empty() {
    assert!(exchange_currencies(0, &silver_standard_config(), false).is_empty());
}

#[test]
fn large_counts_are_grouped() {
    assert_eq!(
        vec!["1,234p".to_owned()],
        exchange_currencies(1_234_000_000, &silver_standard_config(), false)
    );
    assert_eq!(
        vec!["12,345,678 pence".to_owned()],
        exchange_currencies(12_345_678, &[Currency::new("penny", 1, "p", Some("pence".to_owned()), None)], true)
    );
}

#[test]
fn full_names_without_a_plural_take_an_s() {
    assert_eq!(
        vec!["2 golds".to_owned(), "1 copper".to_owned()],
        exchange_currencies(20_001, &silver_standard_config(), true)
    );
}

#[test]
fn long_alias_is_spaced() {
    let table = vec![Currency::new("copper", 1, "cp", None, None)];
    assert_eq!(vec!["3 cp".to_owned()], exchange_currencies(3, &table, false));
}

#[test]
fn equal_rates_go_to_the_first_in_the_table() {
    let table = vec![
        Currency::new("mark", 10, "m", None, None),
        Currency::new("crown", 10, "k", None, None),
        Currency::new("bit", 1, "b", None, None),
    ];
    assert_eq!(
        vec!["2m".to_owned(), "5b".to_owned()],
        exchange_currencies(25, &table, false)
    );
}

#[test]
fn leftover_below_the_smallest_rate_is_dropped() {
    let table = vec![Currency::new("shilling", 100, "s", None, None)];
    assert_eq!(vec!["2s".to_owned()], exchange_currencies(250, &table, false));
}
