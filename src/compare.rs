use std::cmp::Ordering;
use vstd::prelude::*;

use crate::cmp::cmp_version_spec;
use crate::parse::{parse_raw_version, parse_version_spec};
use crate::structs::{ParseError, ParserConfig};
use crate::text::{chars_of, same_chars};

verus! {

/// The order of two raw version strings under `config`, or the first parse
/// error, that of `a` before that of `b`.
pub open spec fn compare_spec(a: Seq<char>, b: Seq<char>, config: ParserConfig) -> Result<Ordering, ParseError> {
    match parse_version_spec(a, config) {
        Err(e) => Err(e),
        Ok(x) => match parse_version_spec(b, config) {
            Err(e) => Err(e),
            Ok(y) => Ok(cmp_version_spec(x, y)),
        },
    }
}

/// Whether an ordering satisfies a relational operator: `<<`, `<=`, `==`,
/// `=>`, `>>` or `!=`. No other text is satisfied.
pub open spec fn operator_holds(order: Ordering, op: Seq<char>) -> bool {
    ||| order == Ordering::Less && (op == "<<"@ || op == "<="@)
    ||| order == Ordering::Greater && (op == ">>"@ || op == "=>"@)
    ||| order == Ordering::Equal && (op == "<="@ || op == "=="@ || op == "=>"@)
    ||| order != Ordering::Equal && op == "!="@
}

/// Whether `s` is the text `lit`.
pub fn is_text(s: &str, lit: &str) -> (r: bool)
    ensures
        r == (s@ == lit@),
{
    same_chars(&chars_of(s), &chars_of(lit))
}

/// Whether `order` satisfies the relational operator `op`.
pub fn operator_matches(order: Ordering, op: &str) -> (r: bool)
    ensures
        r == operator_holds(order, op@),
{
    match order {
        Ordering::Less => is_text(op, "<<") || is_text(op, "<=") || is_text(op, "!="),
        Ordering::Greater => is_text(op, ">>") || is_text(op, "=>") || is_text(op, "!="),
        Ordering::Equal => is_text(op, "<=") || is_text(op, "==") || is_text(op, "=>"),
    }
}

/// Parses both strings under `config` and orders them.
pub fn compare(raw_version_a: &str, raw_version_b: &str, parser_config: &ParserConfig) -> (r: Result<
    Ordering,
    ParseError,
>)
    ensures
        r == compare_spec(raw_version_a@, raw_version_b@, *parser_config),
{
    let version_a = parse_raw_version(raw_version_a, parser_config)?;
    let version_b = parse_raw_version(raw_version_b, parser_config)?;
    Ok(version_a.cmp(&version_b))
}

/// Parses both strings under `config` and tells whether their order
/// satisfies the relational operator `raw_operator`.
pub fn compare_with_operator(
    raw_version_a: &str,
    raw_version_b: &str,
    raw_operator: &str,
    parser_config: &ParserConfig,
) -> (r: Result<bool, ParseError>)
    ensures
        match compare_spec(raw_version_a@, raw_version_b@, *parser_config) {
            Ok(order) => r == Ok::<bool, ParseError>(operator_holds(order, raw_operator@)),
            Err(e) => r == Err::<bool, ParseError>(e),
        },
{
    let order = compare(raw_version_a, raw_version_b, parser_config)?;
    Ok(operator_matches(order, raw_operator))
}

} // verus!
