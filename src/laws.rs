use std::cmp::Ordering;
use vstd::prelude::*;

use crate::cmp::{
    cmp_chars, cmp_int, cmp_main_spec, cmp_numbers_from, cmp_numbers_spec, cmp_prerelease_block_spec,
    cmp_prerelease_spec, cmp_step_spec, cmp_version_spec, padded, then_spec,
};
use crate::compare::compare_spec;
use crate::parse::{
    main_tokens_spec, parse_version_spec, split_epoch_tail_spec, split_version_prerelease_build_spec,
};
use crate::text::{is_digit, split_on};
use crate::structs::{MainView, ParseError, ParserConfig, PrereleaseView, VersionView};

verus! {

pub open spec fn reversed(o: Ordering) -> Ordering {
    match o {
        Ordering::Less => Ordering::Greater,
        Ordering::Equal => Ordering::Equal,
        Ordering::Greater => Ordering::Less,
    }
}

/// The three orderings of `a` to `b`, `b` to `c` and `a` to `c` are
/// consistent with a transitive order.
pub open spec fn transitive_triple(ab: Ordering, bc: Ordering, ac: Ordering) -> bool {
    &&& (ab == Ordering::Equal && bc == Ordering::Equal ==> ac == Ordering::Equal)
    &&& (ab != Ordering::Greater && bc != Ordering::Greater && (ab == Ordering::Less || bc
        == Ordering::Less) ==> ac == Ordering::Less)
    &&& (ab != Ordering::Less && bc != Ordering::Less && (ab == Ordering::Greater || bc
        == Ordering::Greater) ==> ac == Ordering::Greater)
}

proof fn lemma_then(p1: Ordering, q1: Ordering, r1: Ordering, p2: Ordering, q2: Ordering, r2: Ordering)
    requires
        transitive_triple(p1, q1, r1),
        transitive_triple(p2, q2, r2),
    ensures
        transitive_triple(then_spec(p1, p2), then_spec(q1, q2), then_spec(r1, r2)),
{
}

proof fn lemma_cmp_chars_antisymmetric(a: Seq<char>, b: Seq<char>)
    ensures
        cmp_chars(a, b) == reversed(cmp_chars(b, a)),
    decreases a.len(),
{
    if a.len() > 0 && b.len() > 0 && a[0] == b[0] {
        lemma_cmp_chars_antisymmetric(a.drop_first(), b.drop_first());
    }
}

proof fn lemma_cmp_chars_reflexive(a: Seq<char>)
    ensures
        cmp_chars(a, a) == Ordering::Equal,
    decreases a.len(),
{
    if a.len() > 0 {
        lemma_cmp_chars_reflexive(a.drop_first());
    }
}

proof fn lemma_cmp_chars_transitive(a: Seq<char>, b: Seq<char>, c: Seq<char>)
    ensures
        transitive_triple(cmp_chars(a, b), cmp_chars(b, c), cmp_chars(a, c)),
    decreases a.len(),
{
    if a.len() > 0 && b.len() > 0 && c.len() > 0 {
        lemma_cmp_chars_transitive(a.drop_first(), b.drop_first(), c.drop_first());
    }
}

proof fn lemma_cmp_numbers_unfold(a: Seq<u32>, b: Seq<u32>, i: nat)
    ensures
        cmp_numbers_from(a, b, i) == if padded(a, i as int) != padded(b, i as int) {
            cmp_int(padded(a, i as int), padded(b, i as int))
        } else {
            cmp_numbers_from(a, b, i + 1)
        },
{
}

proof fn lemma_cmp_numbers_antisymmetric(a: Seq<u32>, b: Seq<u32>, i: nat)
    ensures
        cmp_numbers_from(a, b, i) == reversed(cmp_numbers_from(b, a, i)),
    decreases a.len() + b.len() - i,
{
    if i < a.len() || i < b.len() {
        lemma_cmp_numbers_antisymmetric(a, b, i + 1);
    }
}

proof fn lemma_cmp_numbers_transitive(a: Seq<u32>, b: Seq<u32>, c: Seq<u32>, i: nat)
    ensures
        transitive_triple(
            cmp_numbers_from(a, b, i),
            cmp_numbers_from(b, c, i),
            cmp_numbers_from(a, c, i),
        ),
    decreases a.len() + b.len() + c.len() - i,
{
    if i < a.len() || i < b.len() || i < c.len() {
        lemma_cmp_numbers_unfold(a, b, i);
        lemma_cmp_numbers_unfold(b, c, i);
        lemma_cmp_numbers_unfold(a, c, i);
        lemma_cmp_numbers_transitive(a, b, c, i + 1);
    }
}

/// An empty step ranks above every non-empty one.
spec fn cmp_emptiness(a: Seq<char>, b: Seq<char>) -> Ordering {
    cmp_int(if a.len() == 0 { 1 } else { 0 }, if b.len() == 0 { 1 } else { 0 })
}

proof fn lemma_cmp_step_split(a: Seq<char>, b: Seq<char>)
    ensures
        cmp_step_spec(a, b) == then_spec(cmp_emptiness(a, b), cmp_chars(a, b)),
{
}

proof fn lemma_cmp_prerelease_block(x: PrereleaseView, y: PrereleaseView, z: PrereleaseView)
    ensures
        cmp_prerelease_block_spec(x, y) == reversed(cmp_prerelease_block_spec(y, x)),
        cmp_prerelease_block_spec(x, x) == Ordering::Equal,
        transitive_triple(
            cmp_prerelease_block_spec(x, y),
            cmp_prerelease_block_spec(y, z),
            cmp_prerelease_block_spec(x, z),
        ),
{
    lemma_cmp_chars_antisymmetric(x.step, y.step);
    lemma_cmp_chars_reflexive(x.step);
    lemma_cmp_chars_transitive(x.step, y.step, z.step);
    lemma_cmp_step_split(x.step, y.step);
    lemma_cmp_step_split(y.step, z.step);
    lemma_cmp_step_split(x.step, z.step);
    lemma_then(
        cmp_emptiness(x.step, y.step),
        cmp_emptiness(y.step, z.step),
        cmp_emptiness(x.step, z.step),
        cmp_chars(x.step, y.step),
        cmp_chars(y.step, z.step),
        cmp_chars(x.step, z.step),
    );
    if x.post_step is Some && y.post_step is Some {
        lemma_cmp_chars_antisymmetric(x.post_step->0, y.post_step->0);
    }
    if x.post_step is Some {
        lemma_cmp_chars_reflexive(x.post_step->0);
    }
    if x.post_step is Some && y.post_step is Some && z.post_step is Some {
        lemma_cmp_chars_transitive(x.post_step->0, y.post_step->0, z.post_step->0);
    }
}

proof fn lemma_cmp_main(x: MainView, y: MainView, z: MainView)
    ensures
        cmp_main_spec(x, y) == reversed(cmp_main_spec(y, x)),
        cmp_main_spec(x, x) == Ordering::Equal,
        transitive_triple(cmp_main_spec(x, y), cmp_main_spec(y, z), cmp_main_spec(x, z)),
{
    lemma_cmp_numbers_antisymmetric(x.numbers, y.numbers, 0);
    lemma_cmp_numbers_antisymmetric(x.numbers, x.numbers, 0);
    lemma_cmp_numbers_transitive(x.numbers, y.numbers, z.numbers, 0);
}

proof fn lemma_cmp_version(x: VersionView, y: VersionView, z: VersionView)
    ensures
        cmp_version_spec(x, y) == reversed(cmp_version_spec(y, x)),
        cmp_version_spec(x, x) == Ordering::Equal,
        transitive_triple(cmp_version_spec(x, y), cmp_version_spec(y, z), cmp_version_spec(x, z)),
{
    lemma_cmp_main(x.main, y.main, z.main);
    if x.pre_release is Some && y.pre_release is Some && z.pre_release is Some {
        lemma_cmp_prerelease_block(x.pre_release->0, y.pre_release->0, z.pre_release->0);
    } else if x.pre_release is Some && y.pre_release is Some {
        lemma_cmp_prerelease_block(x.pre_release->0, y.pre_release->0, y.pre_release->0);
    } else if x.pre_release is Some {
        lemma_cmp_prerelease_block(x.pre_release->0, x.pre_release->0, x.pre_release->0);
    }
}

/// Under one configuration, `compare` is a total order on the strings that
/// parse: every string is equal to itself, swapping the two strings
/// reverses the result, and the order is transitive.
pub proof fn compare_is_total_order(a: Seq<char>, b: Seq<char>, c: Seq<char>, config: ParserConfig)
    requires
        parse_version_spec(a, config) is Ok,
        parse_version_spec(b, config) is Ok,
        parse_version_spec(c, config) is Ok,
    ensures
        compare_spec(a, b, config) is Ok,
        compare_spec(a, a, config) == Ok::<Ordering, ParseError>(Ordering::Equal),
        compare_spec(a, b, config)->Ok_0 == reversed(compare_spec(b, a, config)->Ok_0),
        transitive_triple(
            compare_spec(a, b, config)->Ok_0,
            compare_spec(b, c, config)->Ok_0,
            compare_spec(a, c, config)->Ok_0,
        ),
{
    lemma_cmp_version(
        parse_version_spec(a, config)->Ok_0,
        parse_version_spec(b, config)->Ok_0,
        parse_version_spec(c, config)->Ok_0,
    );
}

/// The raw main block of `s` under `config`, when `s` splits.
pub open spec fn main_segment(s: Seq<char>, config: ParserConfig) -> Seq<char> {
    split_version_prerelease_build_spec(split_epoch_tail_spec(s, config.epoch_delimiter)->Ok_0.1)->Ok_0.0
}

proof fn lemma_tokens_without_policy(ts: Seq<Seq<char>>)
    requires
        main_tokens_spec(ts, None) is Ok,
    ensures
        forall|i: int| 0 <= i < ts.len() ==> #[trigger] ts[i].len() > 0 && is_digit(ts[i].last()),
    decreases ts.len(),
{
    if ts.len() > 0 {
        lemma_tokens_without_policy(ts.drop_last());
        assert forall|i: int| 0 <= i < ts.len() implies #[trigger] ts[i].len() > 0 && is_digit(ts[i].last()) by {
            if i < ts.len() - 1 {
                assert(ts[i] == ts.drop_last()[i]);
            }
        }
    }
}

/// Without a declared letter policy, a string parses only if every
/// dot-separated token of its main block ends in a digit: a trailing letter
/// makes parsing fail.
pub proof fn undeclared_policy_refuses_letters(s: Seq<char>, config: ParserConfig)
    requires
        config.pre_release_touchs_digit is None,
        parse_version_spec(s, config) is Ok,
    ensures
        forall|i: int|
            0 <= i < split_on(main_segment(s, config), '.').len() ==> {
                let t = #[trigger] split_on(main_segment(s, config), '.')[i];
                t.len() > 0 && is_digit(t.last())
            },
{
    lemma_tokens_without_policy(split_on(main_segment(s, config), '.'));
}

/// Zeros appended to the numbers of a main block do not change its place:
/// `2` and `2.0.0` are equal there.
pub proof fn trailing_zeros_are_ignored(ns: Seq<u32>, k: nat)
    ensures
        cmp_numbers_spec(ns, ns + Seq::new(k, |i: int| 0u32)) == Ordering::Equal,
{
    lemma_padded_zeros(ns, k, 0);
}

proof fn lemma_padded_zeros(ns: Seq<u32>, k: nat, i: nat)
    ensures
        cmp_numbers_from(ns, ns + Seq::new(k, |j: int| 0u32), i) == Ordering::Equal,
    decreases ns.len() + (ns.len() + k) - i,
{
    let m = ns + Seq::new(k, |j: int| 0u32);
    if i < ns.len() || i < m.len() {
        assert(padded(ns, i as int) == padded(m, i as int));
        lemma_padded_zeros(ns, k, i + 1);
    }
}

/// A version with an epoch ranks above every version without one.
pub proof fn declared_epoch_dominates(a: Seq<char>, b: Seq<char>, config: ParserConfig)
    requires
        parse_version_spec(a, config) is Ok,
        parse_version_spec(b, config) is Ok,
        parse_version_spec(a, config)->Ok_0.epoch is Some,
        parse_version_spec(b, config)->Ok_0.epoch is None,
    ensures
        compare_spec(a, b, config) == Ok::<Ordering, ParseError>(Ordering::Greater),
{
}

/// A pre-release ranks below the release it precedes: with equal epochs
/// and equal main blocks, a version with a pre-release is the lesser.
pub proof fn pre_release_precedes_release(a: Seq<char>, b: Seq<char>, config: ParserConfig)
    requires
        parse_version_spec(a, config) is Ok,
        parse_version_spec(b, config) is Ok,
        parse_version_spec(a, config)->Ok_0.epoch == parse_version_spec(b, config)->Ok_0.epoch,
        cmp_main_spec(parse_version_spec(a, config)->Ok_0.main, parse_version_spec(b, config)->Ok_0.main)
            == Ordering::Equal,
        parse_version_spec(a, config)->Ok_0.pre_release is Some,
        parse_version_spec(b, config)->Ok_0.pre_release is None,
    ensures
        compare_spec(a, b, config) == Ok::<Ordering, ParseError>(Ordering::Less),
{
}

/// A build number breaks a tie: with every other field equal, a version
/// with a build ranks above one without.
pub proof fn build_breaks_ties(a: Seq<char>, b: Seq<char>, config: ParserConfig)
    requires
        parse_version_spec(a, config) is Ok,
        parse_version_spec(b, config) is Ok,
        parse_version_spec(a, config)->Ok_0.epoch == parse_version_spec(b, config)->Ok_0.epoch,
        cmp_main_spec(parse_version_spec(a, config)->Ok_0.main, parse_version_spec(b, config)->Ok_0.main)
            == Ordering::Equal,
        cmp_prerelease_spec(
            parse_version_spec(a, config)->Ok_0.pre_release,
            parse_version_spec(b, config)->Ok_0.pre_release,
        ) == Ordering::Equal,
        parse_version_spec(a, config)->Ok_0.build is Some,
        parse_version_spec(b, config)->Ok_0.build is None,
    ensures
        compare_spec(a, b, config) == Ok::<Ordering, ParseError>(Ordering::Greater),
{
    let e = parse_version_spec(a, config)->Ok_0.epoch;
    if e is Some {
        assert(cmp_int(e->0 as int, e->0 as int) == Ordering::Equal);
    }
}

} // verus!
