use std::cmp::Ordering;

use cvers::{
    compare, compare_with_operator, operator_matches, parse_raw_version, permissive_parser_config,
    ParseError, ParserConfig,
};

fn config(delimiter: Option<char>, letters: Option<bool>) -> ParserConfig {
    ParserConfig { epoch_delimiter: delimiter, pre_release_touchs_digit: letters }
}

#[test]
fn order_is_antisymmetric_and_transitive_on_samples() {
    let c = permissive_parser_config();
    let chain = ["1.0-alpha.beta", "1.0-alpha", "1.0-beta", "1.0-rc1", "1.0", "1.0+1", "1.0.1", "1:0.1"];
    for i in 0..chain.len() {
        assert_eq!(compare(chain[i], chain[i], &c), Ok(Ordering::Equal));
        for j in (i + 1)..chain.len() {
            assert_eq!(compare(chain[i], chain[j], &c), Ok(Ordering::Less), "{} {}", chain[i], chain[j]);
            assert_eq!(compare(chain[j], chain[i], &c), Ok(Ordering::Greater));
        }
    }
}

#[test]
fn zero_padding_equivalence() {
    let c = permissive_parser_config();
    assert_eq!(compare("2", "2.0.0", &c), Ok(Ordering::Equal));
    assert_eq!(compare("2.0.0", "2", &c), Ok(Ordering::Equal));
}

#[test]
fn epoch_dominance() {
    assert_eq!(compare("1:0.1", "1.2", &permissive_parser_config()), Ok(Ordering::Greater));
}

#[test]
fn pre_release_precedes_release() {
    let c = permissive_parser_config();
    assert_eq!(compare("5.5", "5.5-rc6", &c), Ok(Ordering::Greater));
    assert_eq!(compare("5.5-rc6", "5.5-rc7", &c), Ok(Ordering::Less));
}

#[test]
fn build_tiebreak() {
    let c = permissive_parser_config();
    assert_eq!(compare("1.0+3", "1.0+1", &c), Ok(Ordering::Greater));
    assert_eq!(compare("1.0+3", "1.0", &c), Ok(Ordering::Greater));
}

#[test]
fn operator_mapping() {
    let c = permissive_parser_config();
    assert_eq!(compare_with_operator("2", "1", "<<", &c), Ok(false));
    assert_eq!(compare_with_operator("1", "2", "<<", &c), Ok(true));
    assert_eq!(compare_with_operator("2", "2", "==", &c), Ok(true));
}

#[test]
fn not_equal_operator() {
    let c = permissive_parser_config();
    assert_eq!(compare_with_operator("2", "1", "!=", &c), Ok(true));
    assert_eq!(compare_with_operator("1", "2", "!=", &c), Ok(true));
    assert_eq!(compare_with_operator("2", "2.0", "!=", &c), Ok(false));
}

#[test]
fn unknown_operator_is_never_satisfied() {
    for order in [Ordering::Less, Ordering::Equal, Ordering::Greater] {
        assert!(!operator_matches(order, "<>"));
        assert!(!operator_matches(order, ""));
        assert!(!operator_matches(order, "<<<"));
    }
}

#[test]
fn operator_on_unparsable_version() {
    assert_eq!(
        compare_with_operator("1.x2", "1", "==", &permissive_parser_config()),
        Err(ParseError::NonNumericField)
    );
}

#[test]
fn letter_policy_switch() {
    assert_eq!(compare("6.d", "6.c", &config(None, Some(true))), Ok(Ordering::Greater));
    assert_eq!(compare("6", "6.d", &config(None, Some(true))), Ok(Ordering::Greater));
    assert_eq!(compare("1.0.2a", "1.0.2", &config(None, Some(false))), Ok(Ordering::Greater));
    assert_eq!(
        compare("1.0.2a", "1.0.2", &config(None, None)),
        Err(ParseError::AmbiguousLetterPolicy('a'))
    );
}

#[test]
fn sub_qualifier_ranks_below_its_absence() {
    let c = permissive_parser_config();
    assert_eq!(compare("1.0-alpha", "1.0-alpha.beta", &c), Ok(Ordering::Greater));
    assert_eq!(compare("1.0-alpha.beta", "1.0-alpha.gamma", &c), Ok(Ordering::Less));
}

#[test]
fn sub_number_ranks_above_its_absence() {
    assert_eq!(
        compare("1.0-alpha.1", "1.0-alpha", &permissive_parser_config()),
        Ok(Ordering::Greater)
    );
}

#[test]
fn empty_step_ranks_above_named_steps() {
    assert_eq!(
        compare("1.0-.2", "1.0-zeta.2", &permissive_parser_config()),
        Ok(Ordering::Greater)
    );
}

#[test]
fn render_then_parse_gives_an_equal_version() {
    let c = permissive_parser_config();
    let v = parse_raw_version("1:1.2.3-alpha.2+1", &c).unwrap();
    let text = v.render(&c);
    assert_eq!(text, "1:1.2.3-alpha.2+1".to_string());
    let w = parse_raw_version(&text, &c).unwrap();
    assert_eq!(w.epoch, v.epoch);
    assert_eq!(w.main.numbers, v.main.numbers);
    assert_eq!(w.pre_release.as_ref().unwrap().step, v.pre_release.as_ref().unwrap().step);
    assert_eq!(w.pre_release.as_ref().unwrap().post_number, Some(2));
    assert_eq!(w.build.unwrap().number, 1);
    assert_eq!(w.cmp(&v), Ordering::Equal);
}

#[test]
fn render_writes_canonical_text() {
    let c = config(Some('!'), Some(false));
    let v = parse_raw_version("01!007.0010b-RC05+09", &c).unwrap();
    assert_eq!(v.render(&c), "1!7.10b-rc5+9".to_string());
    let w = parse_raw_version("2-rc.3", &c).unwrap();
    assert_eq!(w.render(&c), "2-rc3".to_string());
    let x = parse_raw_version("6.d", &config(None, Some(true))).unwrap();
    assert_eq!(x.render(&config(None, Some(true))), "6d".to_string());
    let y = parse_raw_version("1.0-alpha.beta", &c).unwrap();
    assert_eq!(y.render(&c), "1.0-alpha.beta".to_string());
}

#[test]
fn plus_letter_without_pre_release_does_not_round_trip() {
    let c = config(Some(':'), Some(false));
    let v = parse_raw_version("1.0+-+3", &c).unwrap();
    assert_eq!(v.main.post_letter, Some('+'));
    assert!(v.pre_release.is_none());
    let text = v.render(&c);
    assert_eq!(text, "1.0++3".to_string());
    assert_eq!(parse_raw_version(&text, &c).err(), Some(ParseError::InvalidDelimiterCount('+')));
}
