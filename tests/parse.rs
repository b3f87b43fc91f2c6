use std::cmp::Ordering;

use cvers::{compare, parse_raw_version, permissive_parser_config, ParseError, ParserConfig};

fn config(delimiter: Option<char>, letters: Option<bool>) -> ParserConfig {
    ParserConfig { epoch_delimiter: delimiter, pre_release_touchs_digit: letters }
}

#[test]
fn parses_every_field() {
    let v = parse_raw_version("1:1.2.3-alpha.2+1", &permissive_parser_config()).unwrap();
    assert_eq!(v.epoch, Some(1));
    assert_eq!(v.main.numbers, vec![1, 2, 3]);
    assert_eq!(v.main.pre_letter, None);
    assert_eq!(v.main.post_letter, None);
    let pre = v.pre_release.unwrap();
    assert_eq!(pre.step, "alpha".to_string());
    assert_eq!(pre.post_number, Some(2));
    assert_eq!(pre.post_step, None);
    assert_eq!(v.build.unwrap().number, 1);
}

#[test]
fn parses_sub_qualifier() {
    let v = parse_raw_version("1.0.0-alpha.beta", &permissive_parser_config()).unwrap();
    let pre = v.pre_release.unwrap();
    assert_eq!(pre.step, "alpha".to_string());
    assert_eq!(pre.post_number, None);
    assert_eq!(pre.post_step, Some("beta".to_string()));
}

#[test]
fn rc_suffix_is_normalized_in_any_case() {
    let v = parse_raw_version("1.1-RC12", &permissive_parser_config()).unwrap();
    let pre = v.pre_release.unwrap();
    assert_eq!(pre.step, "rc".to_string());
    assert_eq!(pre.post_number, Some(12));
}

#[test]
fn rc_with_non_numeric_suffix_is_a_plain_step() {
    let v = parse_raw_version("1.0-rcx", &permissive_parser_config()).unwrap();
    let pre = v.pre_release.unwrap();
    assert_eq!(pre.step, "rcx".to_string());
    assert_eq!(pre.post_number, None);
}

#[test]
fn letter_policy_routes_the_letter() {
    let pre = parse_raw_version("6.d", &config(None, Some(true))).unwrap();
    assert_eq!(pre.main.numbers, vec![6]);
    assert_eq!(pre.main.pre_letter, Some('d'));
    assert_eq!(pre.main.post_letter, None);
    let post = parse_raw_version("1.0.2a", &config(None, Some(false))).unwrap();
    assert_eq!(post.main.numbers, vec![1, 0, 2]);
    assert_eq!(post.main.pre_letter, None);
    assert_eq!(post.main.post_letter, Some('a'));
}

#[test]
fn undeclared_letter_policy_is_refused() {
    assert_eq!(
        parse_raw_version("1.0.2a", &permissive_parser_config()).err(),
        Some(ParseError::AmbiguousLetterPolicy('a'))
    );
    assert_eq!(
        compare("6.d", "6.c", &permissive_parser_config()),
        Err(ParseError::AmbiguousLetterPolicy('d'))
    );
}

#[test]
fn second_letter_is_refused() {
    assert_eq!(
        parse_raw_version("1a.2b", &config(None, Some(false))).err(),
        Some(ParseError::AmbiguousLetterPolicy('b'))
    );
}

#[test]
fn epoch_errors() {
    let c = permissive_parser_config();
    assert_eq!(parse_raw_version("x:1.0", &c).err(), Some(ParseError::InvalidEpoch));
    assert_eq!(parse_raw_version("256:1.0", &c).err(), Some(ParseError::InvalidEpoch));
    assert_eq!(
        parse_raw_version("1:2:3", &c).err(),
        Some(ParseError::InvalidDelimiterCount(':'))
    );
}

#[test]
fn empty_epoch_is_none() {
    let v = parse_raw_version(":1.0", &permissive_parser_config()).unwrap();
    assert_eq!(v.epoch, None);
    assert_eq!(v.main.numbers, vec![1, 0]);
}

#[test]
fn epoch_parsing_can_be_disabled() {
    assert_eq!(
        parse_raw_version("1:1.0", &config(None, None)).err(),
        Some(ParseError::NonNumericField)
    );
}

#[test]
fn delimiter_count_errors() {
    let c = permissive_parser_config();
    assert_eq!(
        parse_raw_version("1.0-a-b", &c).err(),
        Some(ParseError::InvalidDelimiterCount('-'))
    );
    assert_eq!(
        parse_raw_version("1.0+1+2", &c).err(),
        Some(ParseError::InvalidDelimiterCount('+'))
    );
    assert_eq!(
        parse_raw_version("1.0-a.b.c", &c).err(),
        Some(ParseError::InvalidDelimiterCount('.'))
    );
}

#[test]
fn non_numeric_fields() {
    let c = permissive_parser_config();
    for raw in ["", "1..2", "1.x2", "1.0+x", "1.0+256", "1.0-rc300", "1.0-alpha.3x", "4294967296"] {
        assert_eq!(parse_raw_version(raw, &c).err(), Some(ParseError::NonNumericField), "{}", raw);
    }
}

#[test]
fn largest_numbers_fit() {
    let v = parse_raw_version("255:4294967295-rc255+255", &permissive_parser_config()).unwrap();
    assert_eq!(v.epoch, Some(255));
    assert_eq!(v.main.numbers, vec![4294967295]);
    assert_eq!(v.pre_release.unwrap().post_number, Some(255));
    assert_eq!(v.build.unwrap().number, 255);
}

#[test]
fn empty_segments_give_no_block() {
    let v = parse_raw_version("1.0-", &permissive_parser_config()).unwrap();
    assert!(v.pre_release.is_none());
    assert!(v.build.is_none());
    let w = parse_raw_version("1.0-+3", &permissive_parser_config()).unwrap();
    assert!(w.pre_release.is_none());
    assert_eq!(w.build.unwrap().number, 3);
}

#[test]
fn version_cmp_on_parsed_values() {
    let c = permissive_parser_config();
    let a = parse_raw_version("1.0-rc1+3", &c).unwrap();
    let b = parse_raw_version("1.0-rc1+1", &c).unwrap();
    assert_eq!(a.cmp(&b), Ordering::Greater);
    assert_eq!(b.cmp(&a), Ordering::Less);
    assert_eq!(a.main.cmp(&b.main), Ordering::Equal);
    let pa = a.pre_release.as_ref().unwrap();
    let pb = b.pre_release.as_ref().unwrap();
    assert_eq!(pa.cmp(pb), Ordering::Equal);
    assert_eq!(a.build.unwrap().cmp(&b.build.unwrap()), Ordering::Greater);
}
