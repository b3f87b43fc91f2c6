use std::cmp::Ordering;
use vstd::prelude::*;

use crate::compare::{compare, compare_spec, is_text, operator_holds, operator_matches};
use crate::display::{display, order_text};
use crate::structs::{ParseError, ParserConfig};

verus! {

/// What a command line asks for, once decided.
#[derive(Debug)]
pub enum Outcome {
    /// Print this line.
    Print(String),
    /// End with this exit code: 0 when the assertion holds, 1 when not.
    Exit(i32),
    /// The verb is neither `compare` nor `assert`.
    InvalidVerb(String),
    /// The operator is none of `<<`, `<=`, `==`, `=>`, `>>`, `!=`.
    InvalidOperator(String),
    /// Too few arguments for the verb.
    MissingParameters,
    /// A version string did not parse.
    Invalid(ParseError),
}

/// One of the six relational operators.
pub open spec fn is_operator(op: Seq<char>) -> bool {
    op == "<<"@ || op == "<="@ || op == "=="@ || op == "=>"@ || op == ">>"@ || op == "!="@
}

/// The exit code of an assertion: 0 when it holds, 1 when not.
pub open spec fn assert_code(order: Ordering, op: Seq<char>) -> i32 {
    if operator_holds(order, op) {
        0
    } else {
        1
    }
}

/// The text that the `compare` verb prints for two version strings.
pub fn compare_operation(version_a: &str, version_b: &str, parser_config: &ParserConfig) -> (r: Result<
    String,
    ParseError,
>)
    ensures
        match compare_spec(version_a@, version_b@, *parser_config) {
            Ok(order) => r matches Ok(t) && t@ == order_text(order),
            Err(e) => r == Err::<String, ParseError>(e),
        },
{
    let order = compare(version_a, version_b, parser_config)?;
    Ok(display(order))
}

/// The exit code of the `assert` verb: 0 when the order of the two version
/// strings satisfies the operator, 1 when not.
pub fn assert_operation(version_a: &str, version_b: &str, operator: &str, parser_config: &ParserConfig) -> (r:
    Result<i32, ParseError>)
    ensures
        match compare_spec(version_a@, version_b@, *parser_config) {
            Ok(order) => r == Ok::<i32, ParseError>(assert_code(order, operator@)),
            Err(e) => r == Err::<i32, ParseError>(e),
        },
{
    let order = compare(version_a, version_b, parser_config)?;
    if operator_matches(order, operator) {
        Ok(0)
    } else {
        Ok(1)
    }
}

fn is_operator_text(op: &str) -> (r: bool)
    ensures
        r == is_operator(op@),
{
    is_text(op, "<<") || is_text(op, "<=") || is_text(op, "==") || is_text(op, "=>") || is_text(
        op,
        ">>",
    ) || is_text(op, "!=")
}

/// Decides what the arguments that are no option ask for: `args[1]` is the
/// verb; `compare` takes two versions, `assert` a version, an operator and
/// a version.
pub fn canonical_operations(parser_config: &ParserConfig, args: &Vec<String>) -> (r: Outcome)
    ensures
        args.len() < 2 ==> r is MissingParameters,
        args.len() >= 2 && args[1]@ == "compare"@ ==> {
            if args.len() < 4 {
                r is MissingParameters
            } else {
                match compare_spec(args[2]@, args[3]@, *parser_config) {
                    Ok(order) => r matches Outcome::Print(t) && t@ == order_text(order),
                    Err(e) => r == Outcome::Invalid(e),
                }
            }
        },
        args.len() >= 2 && args[1]@ == "assert"@ ==> {
            if args.len() < 4 {
                r is MissingParameters
            } else if !is_operator(args[3]@) {
                r matches Outcome::InvalidOperator(t) && t@ == args[3]@
            } else if args.len() < 5 {
                r is MissingParameters
            } else {
                match compare_spec(args[2]@, args[4]@, *parser_config) {
                    Ok(order) => r == Outcome::Exit(assert_code(order, args[3]@)),
                    Err(e) => r == Outcome::Invalid(e),
                }
            }
        },
        args.len() >= 2 && args[1]@ != "compare"@ && args[1]@ != "assert"@ ==> (r matches Outcome::InvalidVerb(
            t,
        ) && t@ == args[1]@),
{
    if args.len() < 2 {
        return Outcome::MissingParameters;
    }
    let verb = args[1].as_str();
    proof {
        reveal_strlit("compare");
        reveal_strlit("assert");
        assert("compare"@.len() != "assert"@.len());
    }
    if is_text(verb, "compare") {
        if args.len() < 4 {
            return Outcome::MissingParameters;
        }
        match compare_operation(args[2].as_str(), args[3].as_str(), parser_config) {
            Ok(t) => Outcome::Print(t),
            Err(e) => Outcome::Invalid(e),
        }
    } else if is_text(verb, "assert") {
        if args.len() < 4 {
            return Outcome::MissingParameters;
        }
        let operator = args[3].as_str();
        if !is_operator_text(operator) {
            return Outcome::InvalidOperator(args[3].clone());
        }
        if args.len() < 5 {
            return Outcome::MissingParameters;
        }
        match assert_operation(args[2].as_str(), args[4].as_str(), operator, parser_config) {
            Ok(code) => Outcome::Exit(code),
            Err(e) => Outcome::Invalid(e),
        }
    } else {
        Outcome::InvalidVerb(args[1].clone())
    }
}

} // verus!
