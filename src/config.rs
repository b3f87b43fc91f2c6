use vstd::prelude::*;

use crate::structs::ParserConfig;

verus! {

/// The default configuration: `:` ends an epoch, and a trailing letter on a
/// numeric component is refused.
pub fn permissive_parser_config() -> (r: ParserConfig)
    ensures
        r == (ParserConfig { epoch_delimiter: Some(':'), pre_release_touchs_digit: None }),
{
    ParserConfig { epoch_delimiter: Some(':'), pre_release_touchs_digit: None }
}

} // verus!
