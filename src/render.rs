use vstd::prelude::*;

use crate::structs::{MainBlock, MainView, ParserConfig, PrereleaseBlock, PrereleaseView, Version, VersionView};
use crate::text::{chars_of, same_chars, string_of};

verus! {

pub open spec fn digit_char(d: nat) -> char {
    ((d + 48) as u32) as char
}

/// The shortest decimal text of `n`.
pub open spec fn decimal(n: nat) -> Seq<char>
    decreases n,
{
    if n < 10 {
        seq![digit_char(n)]
    } else {
        decimal(n / 10).push(digit_char(n % 10))
    }
}

/// The numbers in decimal, separated by dots.
pub open spec fn join_numbers(ns: Seq<u32>) -> Seq<char>
    decreases ns.len(),
{
    if ns.len() == 0 {
        Seq::empty()
    } else if ns.len() == 1 {
        decimal(ns[0] as nat)
    } else {
        join_numbers(ns.drop_last()).push('.') + decimal(ns.last() as nat)
    }
}

/// The trailing letter of a main block, the pre-release one first.
pub open spec fn letter_of(m: MainView) -> Option<char> {
    match m.pre_letter {
        Some(c) => Some(c),
        None => m.post_letter,
    }
}

pub open spec fn opt_seq(c: Option<char>) -> Seq<char> {
    match c {
        Some(x) => seq![x],
        None => Seq::empty(),
    }
}

pub open spec fn render_main(m: MainView) -> Seq<char> {
    join_numbers(m.numbers) + opt_seq(letter_of(m))
}

/// A pre-release block as text; the step `rc` takes its number without a
/// dot.
pub open spec fn render_prerelease(p: PrereleaseView) -> Seq<char> {
    match p.post_number {
        Some(n) => if p.step == seq!['r', 'c'] && p.post_step is None {
            p.step + decimal(n as nat)
        } else {
            p.step.push('.') + decimal(n as nat)
        },
        None => match p.post_step {
            Some(s) => p.step.push('.') + s,
            None => p.step,
        },
    }
}

/// A version as text: the epoch and the delimiter (when both are there),
/// the main block, `-` and the pre-release, `+` and the build number.
pub open spec fn render_version(v: VersionView, delimiter: Option<char>) -> Seq<char> {
    let epoch = match (v.epoch, delimiter) {
        (Some(e), Some(d)) => decimal(e as nat).push(d),
        _ => Seq::empty(),
    };
    let pre = match v.pre_release {
        Some(p) => seq!['-'] + render_prerelease(p),
        None => Seq::empty(),
    };
    let build = match v.build {
        Some(b) => seq!['+'] + decimal(b as nat),
        None => Seq::empty(),
    };
    epoch + render_main(v.main) + pre + build
}

fn push_decimal(out: &mut Vec<char>, n: u32)
    ensures
        final(out)@ == old(out)@ + decimal(n as nat),
    decreases n,
{
    if n >= 10 {
        push_decimal(out, n / 10);
    }
    let d: u8 = (n % 10) as u8;
    out.push((48u8 + d) as char);
}

fn push_chars(out: &mut Vec<char>, s: &str)
    ensures
        final(out)@ == old(out)@ + s@,
{
    let c = chars_of(s);
    let mut i: usize = 0;
    while i < c.len()
        invariant
            i <= c.len(),
            c@ == s@,
            out@ == old(out)@ + c@.take(i as int),
        decreases c.len() - i,
    {
        out.push(c[i]);
        i += 1;
        assert(out@ =~= old(out)@ + c@.take(i as int));
    }
    assert(c@.take(c.len() as int) =~= c@);
}

impl MainBlock {
    fn push_render(&self, out: &mut Vec<char>)
        ensures
            final(out)@ == old(out)@ + render_main(self@),
    {
        let mut i: usize = 0;
        while i < self.numbers.len()
            invariant
                i <= self.numbers.len(),
                out@ == old(out)@ + join_numbers(self.numbers@.take(i as int)),
            decreases self.numbers.len() - i,
        {
            let ghost before = out@;
            assert(self.numbers@.take(i + 1).drop_last() =~= self.numbers@.take(i as int));
            if i > 0 {
                out.push('.');
            }
            push_decimal(out, self.numbers[i]);
            i += 1;
            assert(out@ =~= old(out)@ + join_numbers(self.numbers@.take(i as int)));
        }
        assert(self.numbers@.take(self.numbers.len() as int) =~= self.numbers@);
        match self.pre_letter {
            Some(c) => out.push(c),
            None => match self.post_letter {
                Some(c) => out.push(c),
                None => {},
            },
        }
        assert(out@ =~= old(out)@ + render_main(self@));
    }
}

impl PrereleaseBlock {
    fn push_render(&self, out: &mut Vec<char>)
        ensures
            final(out)@ == old(out)@ + render_prerelease(self@),
    {
        push_chars(out, self.step.as_str());
        match self.post_number {
            Some(n) => {
                let rc: Vec<char> = vec!['r', 'c'];
                assert(rc@ =~= seq!['r', 'c']);
                let is_rc = same_chars(&chars_of(self.step.as_str()), &rc);
                if !(is_rc && self.post_step.is_none()) {
                    out.push('.');
                }
                push_decimal(out, n as u32);
            },
            None => match &self.post_step {
                Some(t) => {
                    out.push('.');
                    push_chars(out, t.as_str());
                },
                None => {},
            },
        }
        assert(out@ =~= old(out)@ + render_prerelease(self@));
    }
}

impl Version {
    /// The version as text under `config`: the epoch and the delimiter
    /// (when both are there), the main block, `-` and the pre-release, `+`
    /// and the build number.
    pub fn render(&self, config: &ParserConfig) -> (r: String)
        ensures
            r@ == render_version(self@, config.epoch_delimiter),
    {
        let mut out: Vec<char> = Vec::new();
        match (self.epoch, config.epoch_delimiter) {
            (Some(e), Some(d)) => {
                push_decimal(&mut out, e as u32);
                out.push(d);
            },
            _ => {},
        }
        let ghost epoch_part = out@;
        self.main.push_render(&mut out);
        let ghost main_part = out@;
        match &self.pre_release {
            Some(p) => {
                out.push('-');
                p.push_render(&mut out);
            },
            None => {},
        }
        let ghost pre_part = out@;
        match self.build {
            Some(b) => {
                out.push('+');
                push_decimal(&mut out, b.number as u32);
            },
            None => {},
        }
        assert(out@ =~= render_version(self@, config.epoch_delimiter));
        string_of(&out)
    }
}

} // verus!
