use vstd::prelude::*;

use crate::compare::is_text;
use crate::config::permissive_parser_config;
use crate::structs::ParserConfig;
use crate::text::chars_of;

verus! {

pub open spec fn string_views(v: Seq<String>) -> Seq<Seq<char>> {
    v.map_values(|s: String| s@)
}

/// The configuration, the arguments that are no option, and whether the
/// next argument names the epoch delimiter, after reading `args` from left
/// to right. `--pre-release-touchs-digit` declares trailing letters to be
/// pre-release letters; `--epoch` takes the first character of the next
/// argument as the epoch delimiter (none if that argument is empty).
pub open spec fn arguments_spec(args: Seq<Seq<char>>) -> (ParserConfig, Seq<Seq<char>>, bool)
    decreases args.len(),
{
    if args.len() == 0 {
        (
            ParserConfig { epoch_delimiter: Some(':'), pre_release_touchs_digit: None },
            Seq::empty(),
            false,
        )
    } else {
        let (config, rest, pending) = arguments_spec(args.drop_last());
        let a = args.last();
        if a == "--pre-release-touchs-digit"@ {
            (
                ParserConfig {
                    epoch_delimiter: config.epoch_delimiter,
                    pre_release_touchs_digit: Some(true),
                },
                rest,
                pending,
            )
        } else if a == "--epoch"@ {
            (config, rest, true)
        } else if pending {
            (
                ParserConfig {
                    epoch_delimiter: if a.len() > 0 {
                        Some(a[0])
                    } else {
                        None
                    },
                    pre_release_touchs_digit: config.pre_release_touchs_digit,
                },
                rest,
                false,
            )
        } else {
            (config, rest.push(a), false)
        }
    }
}

/// Reads the command-line options out of `args`: the configuration they
/// describe and the remaining arguments, in order.
pub fn parse_arguments(args: Vec<String>) -> (r: (ParserConfig, Vec<String>))
    ensures
        r.0 == arguments_spec(string_views(args@)).0,
        string_views(r.1@) == arguments_spec(string_views(args@)).1,
{
    let ghost all = string_views(args@);
    let mut parser_config = permissive_parser_config();
    let mut mandatories_args: Vec<String> = Vec::new();
    let mut next_args_is_epoch_delimiter: bool = false;
    let mut i: usize = 0;
    assert(all.take(0) =~= Seq::<Seq<char>>::empty());
    assert(string_views(mandatories_args@) =~= Seq::<Seq<char>>::empty());
    while i < args.len()
        invariant
            i <= args.len(),
            all == string_views(args@),
            arguments_spec(all.take(i as int)) == (
                parser_config,
                string_views(mandatories_args@),
                next_args_is_epoch_delimiter,
            ),
        decreases args.len() - i,
    {
        let arg = args[i].clone();
        assert(all.take(i + 1).drop_last() =~= all.take(i as int));
        assert(all.take(i + 1).last() == arg@);
        if is_text(arg.as_str(), "--pre-release-touchs-digit") {
            parser_config.pre_release_touchs_digit = Some(true);
        } else if is_text(arg.as_str(), "--epoch") {
            next_args_is_epoch_delimiter = true;
        } else if next_args_is_epoch_delimiter {
            let c = chars_of(arg.as_str());
            parser_config.epoch_delimiter = if c.len() > 0 {
                Some(c[0])
            } else {
                None
            };
            next_args_is_epoch_delimiter = false;
        } else {
            let ghost before = mandatories_args@;
            mandatories_args.push(arg);
            assert(string_views(mandatories_args@) =~= string_views(before).push(arg@));
        }
        i += 1;
    }
    assert(all.take(args.len() as int) =~= all);
    (parser_config, mandatories_args)
}

} // verus!
