use vstd::prelude::*;

use crate::structs::{
    opt_build_view, opt_prerelease_view,
    BuildBlock, MainBlock, MainView, ParseError, ParserConfig, PrereleaseBlock, PrereleaseView,
    Version, VersionView,
};
use crate::text::{
    all_digits, chars_of, digits_only, is_digit, number_of, parse_number, split_chars, split_on, string_of,
    views,
};

verus! {

pub open spec fn u8_max() -> nat {
    0xff
}

pub open spec fn u32_max() -> nat {
    0xffff_ffff
}

/// `s` cut at its one occurrence of `d`; with no occurrence, `s` and an
/// empty second part.
pub open spec fn split_pair_spec(s: Seq<char>, d: char) -> Result<(Seq<char>, Seq<char>), ParseError> {
    let p = split_on(s, d);
    if p.len() == 1 {
        Ok((p[0], Seq::empty()))
    } else if p.len() == 2 {
        Ok((p[0], p[1]))
    } else {
        Err(ParseError::InvalidDelimiterCount(d))
    }
}

/// The raw epoch and the rest of the string.
pub open spec fn split_epoch_tail_spec(s: Seq<char>, delimiter: Option<char>) -> Result<
    (Seq<char>, Seq<char>),
    ParseError,
> {
    match delimiter {
        None => Ok((Seq::empty(), s)),
        Some(d) => {
            let p = split_on(s, d);
            if p.len() == 1 {
                Ok((Seq::empty(), p[0]))
            } else if p.len() == 2 {
                Ok((p[0], p[1]))
            } else {
                Err(ParseError::InvalidDelimiterCount(d))
            }
        },
    }
}

pub open spec fn parse_epoch_spec(s: Seq<char>) -> Result<Option<u8>, ParseError> {
    if s.len() == 0 {
        Ok(None)
    } else {
        match number_of(s, u8_max()) {
            Some(v) => Ok(Some(v as u8)),
            None => Err(ParseError::InvalidEpoch),
        }
    }
}

/// The raw main block, pre-release and build of a string without epoch.
pub open spec fn split_version_prerelease_build_spec(s: Seq<char>) -> Result<
    (Seq<char>, Seq<char>, Seq<char>),
    ParseError,
> {
    match split_pair_spec(s, '-') {
        Err(e) => Err(e),
        Ok((main, rest)) => if rest.len() == 0 {
            match split_pair_spec(main, '+') {
                Err(e) => Err(e),
                Ok((m, b)) => Ok((m, Seq::empty(), b)),
            }
        } else {
            match split_pair_spec(rest, '+') {
                Err(e) => Err(e),
                Ok((p, b)) => Ok((main, p, b)),
            }
        },
    }
}

/// One dot-separated token of the main block read on top of the numbers and
/// the letter read so far.
pub open spec fn main_token_spec(
    t: Seq<char>,
    numbers: Seq<u32>,
    letter: Option<char>,
    policy: Option<bool>,
) -> Result<(Seq<u32>, Option<char>), ParseError> {
    if t.len() == 0 {
        Err(ParseError::NonNumericField)
    } else if is_digit(t.last()) {
        match number_of(t, u32_max()) {
            Some(v) => Ok((numbers.push(v as u32), letter)),
            None => Err(ParseError::NonNumericField),
        }
    } else {
        let head = t.drop_last();
        if head.len() > 0 && number_of(head, u32_max()) is None {
            Err(ParseError::NonNumericField)
        } else if policy is None || letter is Some {
            Err(ParseError::AmbiguousLetterPolicy(t.last()))
        } else if head.len() > 0 {
            Ok((numbers.push(number_of(head, u32_max())->0 as u32), Some(t.last())))
        } else {
            Ok((numbers, Some(t.last())))
        }
    }
}

/// The tokens of a main block read from left to right.
pub open spec fn main_tokens_spec(ts: Seq<Seq<char>>, policy: Option<bool>) -> Result<
    (Seq<u32>, Option<char>),
    ParseError,
>
    decreases ts.len(),
{
    if ts.len() == 0 {
        Ok((Seq::empty(), None))
    } else {
        match main_tokens_spec(ts.drop_last(), policy) {
            Err(e) => Err(e),
            Ok((numbers, letter)) => main_token_spec(ts.last(), numbers, letter, policy),
        }
    }
}

pub open spec fn parse_main_spec(s: Seq<char>, policy: Option<bool>) -> Result<MainView, ParseError> {
    match main_tokens_spec(split_on(s, '.'), policy) {
        Err(e) => Err(e),
        Ok((numbers, letter)) => Ok(
            MainView {
                numbers,
                pre_letter: if policy == Some(true) {
                    letter
                } else {
                    None
                },
                post_letter: if policy == Some(false) {
                    letter
                } else {
                    None
                },
            },
        ),
    }
}

/// `rcN`, with any case of `rc` and `N` a non-empty run of digits.
pub open spec fn is_rc_form(s: Seq<char>) -> bool {
    &&& s.len() > 2
    &&& s[0] == 'r' || s[0] == 'R'
    &&& s[1] == 'c' || s[1] == 'C'
    &&& all_digits(s.skip(2))
}

pub open spec fn parse_prerelease_spec(s: Seq<char>) -> Result<Option<PrereleaseView>, ParseError> {
    if s.len() == 0 {
        Ok(None)
    } else {
        match split_pair_spec(s, '.') {
            Err(e) => Err(e),
            Ok((step, second)) => if second.len() > 0 {
                if is_digit(second[0]) {
                    match number_of(second, u8_max()) {
                        Some(n) => Ok(
                            Some(
                                PrereleaseView {
                                    step,
                                    post_number: Some(n as u8),
                                    post_step: None,
                                },
                            ),
                        ),
                        None => Err(ParseError::NonNumericField),
                    }
                } else {
                    Ok(Some(PrereleaseView { step, post_number: None, post_step: Some(second) }))
                }
            } else if is_rc_form(s) {
                match number_of(s.skip(2), u8_max()) {
                    Some(n) => Ok(
                        Some(
                            PrereleaseView {
                                step: seq!['r', 'c'],
                                post_number: Some(n as u8),
                                post_step: None,
                            },
                        ),
                    ),
                    None => Err(ParseError::NonNumericField),
                }
            } else {
                Ok(Some(PrereleaseView { step: s, post_number: None, post_step: None }))
            },
        }
    }
}

pub open spec fn parse_build_spec(s: Seq<char>) -> Result<Option<u8>, ParseError> {
    if s.len() == 0 {
        Ok(None)
    } else {
        match number_of(s, u8_max()) {
            Some(n) => Ok(Some(n as u8)),
            None => Err(ParseError::NonNumericField),
        }
    }
}

/// The version that a raw string denotes under `config`, or the first
/// reason, in reading order, why it denotes none.
pub open spec fn parse_version_spec(s: Seq<char>, config: ParserConfig) -> Result<VersionView, ParseError> {
    match split_epoch_tail_spec(s, config.epoch_delimiter) {
        Err(e) => Err(e),
        Ok((raw_epoch, tail)) => match parse_epoch_spec(raw_epoch) {
            Err(e) => Err(e),
            Ok(epoch) => match split_version_prerelease_build_spec(tail) {
                Err(e) => Err(e),
                Ok((raw_main, raw_pre, raw_build)) => match parse_main_spec(
                    raw_main,
                    config.pre_release_touchs_digit,
                ) {
                    Err(e) => Err(e),
                    Ok(main) => match parse_prerelease_spec(raw_pre) {
                        Err(e) => Err(e),
                        Ok(pre_release) => match parse_build_spec(raw_build) {
                            Err(e) => Err(e),
                            Ok(build) => Ok(VersionView { epoch, main, pre_release, build }),
                        },
                    },
                },
            },
        },
    }
}

fn split_str(s: &Vec<char>, delimiter: char) -> (r: Result<(Vec<char>, Vec<char>), ParseError>)
    ensures
        match split_pair_spec(s@, delimiter) {
            Ok((a, b)) => r matches Ok((x, y)) && x@ == a && y@ == b,
            Err(e) => r == Err::<(Vec<char>, Vec<char>), ParseError>(e),
        },
{
    let mut pieces = split_chars(s, delimiter);
    if pieces.len() == 1 {
        let first = pieces.pop().unwrap();
        Ok((first, Vec::new()))
    } else if pieces.len() == 2 {
        let second = pieces.pop().unwrap();
        let first = pieces.pop().unwrap();
        Ok((first, second))
    } else {
        Err(ParseError::InvalidDelimiterCount(delimiter))
    }
}

fn split_epoch_tail(s: &Vec<char>, config: &ParserConfig) -> (r: Result<(Vec<char>, Vec<char>), ParseError>)
    ensures
        match split_epoch_tail_spec(s@, config.epoch_delimiter) {
            Ok((a, b)) => r matches Ok((x, y)) && x@ == a && y@ == b,
            Err(e) => r == Err::<(Vec<char>, Vec<char>), ParseError>(e),
        },
{
    match config.epoch_delimiter {
        None => {
            let mut tail: Vec<char> = Vec::new();
            let mut i: usize = 0;
            while i < s.len()
                invariant
                    i <= s.len(),
                    tail@ == s@.take(i as int),
                decreases s.len() - i,
            {
                tail.push(s[i]);
                i += 1;
                assert(tail@ =~= s@.take(i as int));
            }
            assert(s@.take(s.len() as int) =~= s@);
            Ok((Vec::new(), tail))
        },
        Some(d) => {
            let mut pieces = split_chars(s, d);
            if pieces.len() == 1 {
                let tail = pieces.pop().unwrap();
                Ok((Vec::new(), tail))
            } else if pieces.len() == 2 {
                let tail = pieces.pop().unwrap();
                let epoch = pieces.pop().unwrap();
                Ok((epoch, tail))
            } else {
                Err(ParseError::InvalidDelimiterCount(d))
            }
        },
    }
}

fn parse_epoch(s: &Vec<char>) -> (r: Result<Option<u8>, ParseError>)
    ensures
        r == parse_epoch_spec(s@),
{
    if s.len() == 0 {
        return Ok(None);
    }
    assert(s@.subrange(0, s.len() as int) =~= s@);
    match parse_number(s, 0, s.len(), 0xff) {
        Some(v) => Ok(Some(v as u8)),
        None => Err(ParseError::InvalidEpoch),
    }
}

fn split_version_prerelease_build(s: &Vec<char>) -> (r: Result<(Vec<char>, Vec<char>, Vec<char>), ParseError>)
    ensures
        match split_version_prerelease_build_spec(s@) {
            Ok((a, b, c)) => r matches Ok((x, y, z)) && x@ == a && y@ == b && z@ == c,
            Err(e) => r == Err::<(Vec<char>, Vec<char>, Vec<char>), ParseError>(e),
        },
{
    let (main, rest) = split_str(s, '-')?;
    if rest.len() == 0 {
        let (main, build) = split_str(&main, '+')?;
        Ok((main, Vec::new(), build))
    } else {
        let (pre, build) = split_str(&rest, '+')?;
        Ok((main, pre, build))
    }
}

fn last_char_is_letter(t: &Vec<char>) -> (r: bool)
    requires
        t.len() > 0,
    ensures
        r == !is_digit(t@.last()),
{
    let c = t[t.len() - 1];
    !('0' <= c && c <= '9')
}

proof fn lemma_main_tokens_error(ts: Seq<Seq<char>>, policy: Option<bool>, i: int)
    requires
        0 <= i <= ts.len(),
        main_tokens_spec(ts.take(i), policy) is Err,
    ensures
        main_tokens_spec(ts, policy) == main_tokens_spec(ts.take(i), policy),
    decreases ts.len() - i,
{
    if i == ts.len() {
        assert(ts.take(i) =~= ts);
    } else {
        assert(ts.take(i + 1).drop_last() =~= ts.take(i));
        lemma_main_tokens_error(ts, policy, i + 1);
    }
}

fn parse_main(s: &Vec<char>, config: &ParserConfig) -> (r: Result<MainBlock, ParseError>)
    ensures
        match parse_main_spec(s@, config.pre_release_touchs_digit) {
            Ok(m) => r matches Ok(b) && b@ == m,
            Err(e) => r == Err::<MainBlock, ParseError>(e),
        },
{
    let policy = config.pre_release_touchs_digit;
    let tokens = split_chars(s, '.');
    let ghost ts = views(tokens@);
    let mut numbers: Vec<u32> = Vec::new();
    let mut letter: Option<char> = None;
    let mut i: usize = 0;
    assert(ts.take(0) =~= Seq::<Seq<char>>::empty());
    while i < tokens.len()
        invariant
            i <= tokens.len(),
            ts == views(tokens@),
            ts == split_on(s@, '.'),
            policy == config.pre_release_touchs_digit,
            main_tokens_spec(ts.take(i as int), policy) == Ok::<(Seq<u32>, Option<char>), ParseError>((numbers@, letter)),
        decreases tokens.len() - i,
    {
        let t = &tokens[i];
        assert(ts.take(i + 1).drop_last() =~= ts.take(i as int));
        assert(ts.take(i + 1).last() == t@);
        let ghost step = main_token_spec(t@, numbers@, letter, policy);
        assert(main_tokens_spec(ts.take(i + 1), policy) == step);
        if t.len() == 0 {
            proof { lemma_main_tokens_error(ts, policy, i + 1); }
            return Err(ParseError::NonNumericField);
        }
        let n = t.len();
        if last_char_is_letter(t) {
            let c = t[n - 1];
            assert(t@.drop_last() =~= t@.subrange(0, n - 1));
            let mut head: Option<u32> = None;
            if n > 1 {
                match parse_number(t, 0, n - 1, 0xffff_ffff) {
                    Some(v) => {
                        head = Some(v);
                    },
                    None => {
                        proof { lemma_main_tokens_error(ts, policy, i + 1); }
                        return Err(ParseError::NonNumericField);
                    },
                }
            }
            if policy.is_none() || letter.is_some() {
                proof { lemma_main_tokens_error(ts, policy, i + 1); }
                return Err(ParseError::AmbiguousLetterPolicy(c));
            }
            match head {
                Some(v) => numbers.push(v),
                None => {},
            }
            letter = Some(c);
        } else {
            assert(t@.subrange(0, n as int) =~= t@);
            match parse_number(t, 0, n, 0xffff_ffff) {
                Some(v) => numbers.push(v),
                None => {
                    proof { lemma_main_tokens_error(ts, policy, i + 1); }
                    return Err(ParseError::NonNumericField);
                },
            }
        }
        i += 1;
    }
    assert(ts.take(tokens.len() as int) =~= ts);
    let pre_letter = match policy {
        Some(true) => letter,
        _ => None,
    };
    let post_letter = match policy {
        Some(false) => letter,
        _ => None,
    };
    Ok(MainBlock { numbers, pre_letter, post_letter })
}

fn is_rc(s: &Vec<char>) -> (r: bool)
    ensures
        r == is_rc_form(s@),
{
    if s.len() <= 2 {
        return false;
    }
    assert(s@.skip(2) =~= s@.subrange(2, s.len() as int));
    (s[0] == 'r' || s[0] == 'R') && (s[1] == 'c' || s[1] == 'C') && digits_only(s, 2, s.len())
}

fn parse_prerelease(s: &Vec<char>) -> (r: Result<Option<PrereleaseBlock>, ParseError>)
    ensures
        match parse_prerelease_spec(s@) {
            Ok(p) => r matches Ok(b) && opt_prerelease_view(b) == p,
            Err(e) => r == Err::<Option<PrereleaseBlock>, ParseError>(e),
        },
{
    if s.len() == 0 {
        return Ok(None);
    }
    let (raw_step, second) = split_str(s, '.')?;
    if second.len() > 0 {
        if '0' <= second[0] && second[0] <= '9' {
            assert(second@.subrange(0, second.len() as int) =~= second@);
            match parse_number(&second, 0, second.len(), 0xff) {
                Some(n) => Ok(
                    Some(
                        PrereleaseBlock {
                            step: string_of(&raw_step),
                            post_number: Some(n as u8),
                            post_step: None,
                        },
                    ),
                ),
                None => Err(ParseError::NonNumericField),
            }
        } else {
            Ok(
                Some(
                    PrereleaseBlock {
                        step: string_of(&raw_step),
                        post_number: None,
                        post_step: Some(string_of(&second)),
                    },
                ),
            )
        }
    } else if is_rc(s) {
        assert(s@.skip(2) =~= s@.subrange(2, s.len() as int));
        match parse_number(s, 2, s.len(), 0xff) {
            Some(n) => {
                let rc: Vec<char> = vec!['r', 'c'];
                assert(rc@ =~= seq!['r', 'c']);
                Ok(Some(PrereleaseBlock { step: string_of(&rc), post_number: Some(n as u8), post_step: None }))
            },
            None => Err(ParseError::NonNumericField),
        }
    } else {
        Ok(Some(PrereleaseBlock { step: string_of(s), post_number: None, post_step: None }))
    }
}

fn parse_build(s: &Vec<char>) -> (r: Result<Option<BuildBlock>, ParseError>)
    ensures
        match parse_build_spec(s@) {
            Ok(b) => r matches Ok(x) && opt_build_view(x) == b,
            Err(e) => r == Err::<Option<BuildBlock>, ParseError>(e),
        },
{
    if s.len() == 0 {
        return Ok(None);
    }
    assert(s@.subrange(0, s.len() as int) =~= s@);
    match parse_number(s, 0, s.len(), 0xff) {
        Some(n) => Ok(Some(BuildBlock { number: n as u8 })),
        None => Err(ParseError::NonNumericField),
    }
}

/// Parses a raw version string under `config`.
pub fn parse_raw_version(raw_version: &str, config: &ParserConfig) -> (r: Result<Version, ParseError>)
    ensures
        match parse_version_spec(raw_version@, *config) {
            Ok(v) => r matches Ok(x) && x@ == v,
            Err(e) => r == Err::<Version, ParseError>(e),
        },
{
    let raw = chars_of(raw_version);
    let (raw_epoch, raw_tail) = split_epoch_tail(&raw, config)?;
    let epoch = parse_epoch(&raw_epoch)?;
    let (raw_main, raw_prerelease, raw_build) = split_version_prerelease_build(&raw_tail)?;
    let main = parse_main(&raw_main, config)?;
    let pre_release = parse_prerelease(&raw_prerelease)?;
    let build = parse_build(&raw_build)?;
    Ok(Version { epoch, main, pre_release, build })
}

} // verus!
