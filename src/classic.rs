use std::cmp::Ordering;
use vstd::prelude::*;

use crate::compare::compare_spec;
use crate::structs::{ParseError, ParserConfig};

verus! {

/// The scheme of Debian-style epochs and OpenSSL-style patch letters: `:`
/// ends an epoch and a trailing letter marks a later patch.
pub open spec fn classic_config() -> ParserConfig {
    ParserConfig { epoch_delimiter: Some(':'), pre_release_touchs_digit: Some(false) }
}

/// Orders two raw version strings under the classic scheme.
pub fn compare(raw_version_a: &str, raw_version_b: &str) -> (r: Result<Ordering, ParseError>)
    ensures
        r == compare_spec(raw_version_a@, raw_version_b@, classic_config()),
{
    let config = ParserConfig { epoch_delimiter: Some(':'), pre_release_touchs_digit: Some(false) };
    crate::compare::compare(raw_version_a, raw_version_b, &config)
}

} // verus!
