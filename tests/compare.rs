use std::cmp::Ordering;

use cvers::{compare, compare_with_operator, ParserConfig};

fn default_parser_config() -> ParserConfig {
    ParserConfig { epoch_delimiter: Some(':'), pre_release_touchs_digit: None }
}

fn python_parser_config() -> ParserConfig {
    ParserConfig { epoch_delimiter: Some('!'), pre_release_touchs_digit: Some(true) }
}

fn openssl_parser_config() -> ParserConfig {
    ParserConfig { epoch_delimiter: None, pre_release_touchs_digit: Some(false) }
}

fn assert_equal(first: &str, second: &str, parser_config: &ParserConfig) {
    assert_eq!(compare(first, second, parser_config), Ok(Ordering::Equal));
    assert_eq!(compare(second, first, parser_config), Ok(Ordering::Equal));
}

fn assert_equal_with_default_parser(first: &str, second: &str) {
    assert_equal(first, second, &default_parser_config());
}

fn assert_not_equal(max: &str, min: &str, parser_config: &ParserConfig) {
    assert_eq!(compare(max, min, parser_config), Ok(Ordering::Greater));
    assert_eq!(compare(min, max, parser_config), Ok(Ordering::Less));
}

fn assert_not_equal_with_default_parser(max: &str, min: &str) {
    assert_not_equal(max, min, &default_parser_config());
}

#[test]
fn test_compare_compatible_with_tex_version() {
    const VERSION: &str = "3.14159265";
    assert_equal_with_default_parser(VERSION, VERSION);
}

#[test]
fn test_compare_equal() {
    const VERSION: &str = "2";
    assert_equal_with_default_parser(VERSION, VERSION);
}

#[test]
fn test_compare_equal_with_two_dots() {
    const VERSION: &str = "2.0.0";
    assert_equal_with_default_parser(VERSION, VERSION);
}

#[test]
fn test_compare_equal_with_different_dots_quantity() {
    const FIRST: &str = "2";
    const SECOND: &str = "2.0.0";
    assert_equal_with_default_parser(FIRST, SECOND);
    assert_equal_with_default_parser(SECOND, FIRST);
}

#[test]
fn test_compare_equal_with_alpha() {
    const VERSION: &str = "1.0-alpha";
    assert_equal_with_default_parser(VERSION, VERSION);
}

#[test]
fn test_compare_equal_with_beta() {
    const VERSION: &str = "1.0-beta";
    assert_equal_with_default_parser(VERSION, VERSION);
}

#[test]
fn test_compare_equal_with_rc_numbers() {
    const VERSION: &str = "5.5-rc7";
    assert_equal_with_default_parser(VERSION, VERSION);
}

#[test]
fn test_compare_equal_with_insensitive_case_rc_numbers() {
    assert_equal_with_default_parser("1.1-rc1", "1.1-RC1");
}

#[test]
fn test_compare_equal_with_build_number() {
    const VERSION: &str = "1.0+1";
    assert_equal_with_default_parser(VERSION, VERSION);
}

#[test]
fn test_compare_equal_with_debian_epoch() {
    const VERSION: &str = "1:1.2.3";
    assert_equal_with_default_parser(VERSION, VERSION);
}

#[test]
fn test_compare_equal_with_python_epoch() {
    const VERSION: &str = "1!1.2.3";
    assert_equal(VERSION, VERSION, &python_parser_config());
}

#[test]
fn test_equal_between_alpha_and_beta_sub_version() {
    const VERSION: &str = "1.0.0-alpha.beta";
    assert_equal_with_default_parser(VERSION, VERSION);
}

#[test]
fn test_not_equal_basic() {
    const MAX: &str = "3";
    const MIN: &str = "2";
    assert_not_equal_with_default_parser(MAX, MIN);
}

#[test]
fn test_not_equal_between_rc_version_and_release_version() {
    const MAX: &str = "5.5";
    const MIN: &str = "5.5-rc6";
    assert_not_equal_with_default_parser(MAX, MIN);
}

#[test]
fn test_not_equal_with_two_dots() {
    const MAX: &str = "2.1";
    const MIN: &str = "2.0";
    assert_not_equal_with_default_parser(MAX, MIN);
}

#[test]
fn test_not_equal_with_rc_numbers_as_linux_versionning_scheme() {
    const MAX: &str = "5.5-rc7";
    const MIN: &str = "5.5-rc6";
    assert_not_equal_with_default_parser(MAX, MIN);
}

#[test]
fn test_not_equal_with_rc_numbers_as_linux_versionning_scheme_with_10_value() {
    const MAX: &str = "3.1-rc10";
    const MIN: &str = "3.1-rc9";
    assert_not_equal_with_default_parser(MAX, MIN);
}

#[test]
fn test_not_equal_between_build_number() {
    const MAX: &str = "1.0+3";
    const MIN: &str = "1.0+1";
    assert_not_equal_with_default_parser(MAX, MIN);
}

#[test]
fn test_not_equal_with_rc_numbers_between_build_number() {
    const MAX: &str = "1.0-rc1+3";
    const MIN: &str = "1.0-rc1+1";
    assert_not_equal_with_default_parser(MAX, MIN);
}

#[test]
fn test_not_equal_between_build_number_and_no_build() {
    const MAX: &str = "1.0+3";
    const MIN: &str = "1.0";
    assert_not_equal_with_default_parser(MAX, MIN);
}

#[test]
fn test_not_equal_between_alpha_and_beta_versions() {
    const MAX: &str = "5.5-beta";
    const MIN: &str = "5.5-alpha";
    assert_not_equal_with_default_parser(MAX, MIN);
}

#[test]
fn test_not_equal_between_alpha_sub_versions() {
    const MAX: &str = "5.5-alpha.10";
    const MIN: &str = "5.5-alpha.2";
    assert_not_equal_with_default_parser(MAX, MIN);
}

#[test]
fn test_not_equal_between_rc_sub_versions() {
    const MAX: &str = "5.5-rc.10";
    const MIN: &str = "5.5-rc.2";
    assert_not_equal_with_default_parser(MAX, MIN);
}

#[test]
fn test_not_equal_between_beta_and_rc_versions() {
    const MAX: &str = "1.0-rc1";
    const MIN: &str = "1.0-beta";
    assert_not_equal_with_default_parser(MAX, MIN);
}

#[test]
fn test_not_equal_between_alpha_and_released_versions() {
    const MAX: &str = "5.5";
    const MIN: &str = "5.5-alpha";
    assert_not_equal_with_default_parser(MAX, MIN);
}

#[test]
fn test_not_equal_between_debian_epoch() {
    const MAX: &str = "2:2";
    const MIN: &str = "1:10";
    assert_not_equal_with_default_parser(MAX, MIN);
}

#[test]
fn test_not_equal_between_epoch_and_no_epoch() {
    const MAX: &str = "1:0.1";
    const MIN: &str = "1.2";
    assert_not_equal_with_default_parser(MAX, MIN);
}

// A sub-qualifier ranks below its absence, so `alpha.beta` comes before `alpha.1`.
#[test]
fn test_not_equal_between_alpha_and_beta_sub_version() {
    const MAX: &str = "1.0.0-alpha.1";
    const MIN: &str = "1.0.0-alpha.beta";
    assert_not_equal_with_default_parser(MAX, MIN);
}

#[test]
fn test_not_equal_between_minor_number_followed_by_letter_considered_postrelease() {
    assert_not_equal("1.0.2e", "1.0.2d", &openssl_parser_config());
}

#[test]
fn test_not_equal_between_minor_number_followed_by_letter_and_no_letter_considered_postrelease() {
    assert_not_equal("1.0.2a", "1.0.2", &openssl_parser_config());
}

#[test]
fn test_not_equal_between_minor_number_followed_by_letter_considered_prerelease() {
    assert_not_equal("1.0.2e", "1.0.2d", &python_parser_config());
}

#[test]
fn test_not_equal_between_minor_number_followed_by_letter_and_no_letter_considered_prerelease() {
    assert_not_equal("1.0.2", "1.0.2a", &python_parser_config());
}

#[test]
fn test_not_equal_between_minor_letter() {
    let parser_config = ParserConfig { epoch_delimiter: None, pre_release_touchs_digit: Some(true) };
    assert_not_equal("6.d", "6.c", &parser_config);
}

#[test]
fn test_match_operator_for_different_versions() {
    let parser_config = default_parser_config();
    const MAX: &str = "2";
    const MIN: &str = "1";

    assert_eq!(compare_with_operator(MIN, MAX, "<<", &parser_config), Ok(true));
    assert_eq!(compare_with_operator(MIN, MAX, "<=", &parser_config), Ok(true));
    assert_eq!(compare_with_operator(MIN, MAX, "==", &parser_config), Ok(false));
    assert_eq!(compare_with_operator(MAX, MIN, "=>", &parser_config), Ok(true));
    assert_eq!(compare_with_operator(MAX, MIN, ">>", &parser_config), Ok(true));
    assert_eq!(compare_with_operator(MAX, MIN, "<<", &parser_config), Ok(false));
    assert_eq!(compare_with_operator(MAX, MIN, "<=", &parser_config), Ok(false));
    assert_eq!(compare_with_operator(MIN, MAX, "=>", &parser_config), Ok(false));
    assert_eq!(compare_with_operator(MIN, MAX, ">>", &parser_config), Ok(false));
}

#[test]
fn test_match_operator_for_same_version() {
    let parser_config = default_parser_config();
    const VERSION: &str = "2";

    assert_eq!(compare_with_operator(VERSION, VERSION, "<<", &parser_config), Ok(false));
    assert_eq!(compare_with_operator(VERSION, VERSION, "<=", &parser_config), Ok(true));
    assert_eq!(compare_with_operator(VERSION, VERSION, "==", &parser_config), Ok(true));
    assert_eq!(compare_with_operator(VERSION, VERSION, "=>", &parser_config), Ok(true));
    assert_eq!(compare_with_operator(VERSION, VERSION, ">>", &parser_config), Ok(false));
}
