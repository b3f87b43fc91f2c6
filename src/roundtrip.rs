use vstd::prelude::*;

use crate::parse::{
    is_rc_form, main_token_spec, main_tokens_spec, parse_build_spec, parse_epoch_spec,
    parse_main_spec, parse_prerelease_spec, parse_version_spec, split_epoch_tail_spec,
    split_pair_spec, split_version_prerelease_build_spec, u32_max, u8_max,
};
use crate::render::{
    decimal, digit_char, join_numbers, letter_of, opt_seq, render_main, render_prerelease,
    render_version,
};
use crate::structs::{MainView, ParseError, ParserConfig, PrereleaseView, VersionView};
use crate::text::{all_digits, decimal_value, digit_value, is_digit, lemma_split_on_nonempty, number_of, split_on};

verus! {

/// `s` does not hold `x`.
pub open spec fn free_of(s: Seq<char>, x: char) -> bool {
    forall|i: int| 0 <= i < s.len() ==> s[i] != x
}

proof fn lemma_digit_char(d: nat)
    requires
        d < 10,
    ensures
        is_digit(digit_char(d)),
        digit_value(digit_char(d)) == d,
{
}

proof fn lemma_decimal(n: nat)
    ensures
        decimal(n).len() > 0,
        all_digits(decimal(n)),
        decimal_value(decimal(n)) == n,
    decreases n,
{
    if n < 10 {
        lemma_digit_char(n);
        let s = decimal(n);
        assert(s.drop_last() =~= Seq::<char>::empty());
        assert(decimal_value(s.drop_last()) == 0);
        assert(decimal_value(s) == decimal_value(s.drop_last()) * 10 + digit_value(s.last()));
    } else {
        lemma_decimal(n / 10);
        lemma_digit_char(n % 10);
        let s = decimal(n);
        assert(s.drop_last() =~= decimal(n / 10));
        assert(s.last() == digit_char(n % 10));
        assert(decimal_value(s) == decimal_value(decimal(n / 10)) * 10 + digit_value(s.last()));
        assert(n == (n / 10) * 10 + n % 10) by (nonlinear_arith);
    }
}

proof fn lemma_decimal_number(n: nat, max: nat)
    requires
        n <= max,
    ensures
        number_of(decimal(n), max) == Some(n),
        forall|x: char| !is_digit(x) ==> free_of(decimal(n), x),
{
    lemma_decimal(n);
}

proof fn lemma_split_free(s: Seq<char>, d: char)
    requires
        free_of(s, d),
    ensures
        split_on(s, d) == seq![s],
    decreases s.len(),
{
    if s.len() == 0 {
        assert(s =~= Seq::<char>::empty());
        assert(split_on(s, d) =~= seq![s]);
    } else {
        lemma_split_free(s.drop_last(), d);
        assert(s.last() != d);
        let p = split_on(s.drop_last(), d);
        assert(p.last() == s.drop_last());
        assert(split_on(s, d) == p.update(p.len() - 1, p.last().push(s.last())));
        assert(s.drop_last().push(s.last()) =~= s);
        assert(split_on(s, d) =~= seq![s]);
    }
}

proof fn lemma_split_one(s: Seq<char>, d: char)
    requires
        split_on(s, d).len() == 1,
    ensures
        free_of(s, d),
        split_on(s, d)[0] == s,
    decreases s.len(),
{
    if s.len() > 0 {
        lemma_split_on_nonempty(s.drop_last(), d);
        if s.last() != d {
            lemma_split_one(s.drop_last(), d);
            assert(s.drop_last().push(s.last()) =~= s);
        }
    }
}

proof fn lemma_split_append(s: Seq<char>, d: char, t: Seq<char>)
    requires
        free_of(t, d),
    ensures
        split_on(s.push(d) + t, d) == split_on(s, d).push(t),
    decreases t.len(),
{
    lemma_split_on_nonempty(s, d);
    if t.len() == 0 {
        assert(s.push(d) + t =~= s.push(d));
        assert(s.push(d).drop_last() =~= s);
        assert(s.push(d).last() == d);
        assert(split_on(s.push(d), d) == split_on(s, d).push(Seq::empty()));
        assert(t =~= Seq::<char>::empty());
    } else {
        lemma_split_append(s, d, t.drop_last());
        let u = s.push(d) + t;
        assert(u.drop_last() =~= s.push(d) + t.drop_last());
        assert(t.drop_last().push(t.last()) =~= t);
        assert(split_on(u, d) =~= split_on(s, d).push(t));
    }
}

/// The pieces of a split hold neither the delimiter nor anything `s` does
/// not hold.
proof fn lemma_split_pieces(s: Seq<char>, d: char, x: char)
    ensures
        forall|i: int| 0 <= i < split_on(s, d).len() ==> free_of(#[trigger] split_on(s, d)[i], d),
        free_of(s, x) ==> forall|i: int|
            0 <= i < split_on(s, d).len() ==> free_of(#[trigger] split_on(s, d)[i], x),
    decreases s.len(),
{
    if s.len() > 0 {
        lemma_split_pieces(s.drop_last(), d, x);
        lemma_split_on_nonempty(s.drop_last(), d);
        let p = split_on(s.drop_last(), d);
        if free_of(s, x) {
            assert(free_of(s.drop_last(), x));
        }
        if s.last() != d {
            let q = split_on(s, d);
            assert forall|i: int| 0 <= i < q.len() implies free_of(#[trigger] q[i], d) by {
                if i == q.len() - 1 {
                    assert(q[i] == p.last().push(s.last()));
                    assert(free_of(p[p.len() - 1], d));
                }
            }
            if free_of(s, x) {
                assert forall|i: int| 0 <= i < q.len() implies free_of(#[trigger] q[i], x) by {
                    if i == q.len() - 1 {
                        assert(q[i] == p.last().push(s.last()));
                        assert(free_of(p[p.len() - 1], x));
                    }
                }
            }
        }
    }
}

pub open spec fn decimals(ns: Seq<u32>) -> Seq<Seq<char>> {
    ns.map_values(|n: u32| decimal(n as nat))
}

proof fn lemma_join_chars(ns: Seq<u32>, x: char)
    requires
        !is_digit(x),
        x != '.',
    ensures
        free_of(join_numbers(ns), x),
    decreases ns.len(),
{
    if ns.len() == 1 {
        lemma_decimal(ns[0] as nat);
    } else if ns.len() > 1 {
        lemma_join_chars(ns.drop_last(), x);
        lemma_decimal(ns.last() as nat);
        let a = join_numbers(ns.drop_last()).push('.');
        let b = decimal(ns.last() as nat);
        assert forall|i: int| 0 <= i < (a + b).len() implies (a + b)[i] != x by {
            if i >= a.len() {
                assert((a + b)[i] == b[i - a.len()]);
            } else {
                assert((a + b)[i] == a[i]);
            }
        }
    }
}

proof fn lemma_join_split(ns: Seq<u32>)
    requires
        ns.len() > 0,
    ensures
        split_on(join_numbers(ns), '.') == decimals(ns),
    decreases ns.len(),
{
    lemma_decimal(ns.last() as nat);
    lemma_decimal_number(ns.last() as nat, u32_max());
    if ns.len() == 1 {
        lemma_split_free(decimal(ns[0] as nat), '.');
        assert(decimals(ns) =~= seq![decimal(ns[0] as nat)]);
    } else {
        lemma_join_split(ns.drop_last());
        lemma_split_append(join_numbers(ns.drop_last()), '.', decimal(ns.last() as nat));
        assert(decimals(ns) =~= decimals(ns.drop_last()).push(decimal(ns.last() as nat)));
    }
}

proof fn lemma_decimal_tokens(ns: Seq<u32>, policy: Option<bool>)
    ensures
        main_tokens_spec(decimals(ns), policy) == Ok::<(Seq<u32>, Option<char>), ParseError>((ns, None)),
    decreases ns.len(),
{
    if ns.len() == 0 {
        assert(decimals(ns) =~= Seq::<Seq<char>>::empty());
        assert(ns =~= Seq::<u32>::empty());
    } else {
        lemma_decimal_tokens(ns.drop_last(), policy);
        assert(decimals(ns).drop_last() =~= decimals(ns.drop_last()));
        lemma_decimal(ns.last() as nat);
        lemma_decimal_number(ns.last() as nat, u32_max());
        let t = decimal(ns.last() as nat);
        assert(is_digit(t[t.len() - 1]));
        assert(ns.drop_last().push(ns.last()) =~= ns);
    }
}

proof fn lemma_main_tokens_facts(ts: Seq<Seq<char>>, policy: Option<bool>, x: char)
    requires
        main_tokens_spec(ts, policy) is Ok,
    ensures
        ts.len() > 0 ==> main_tokens_spec(ts, policy)->Ok_0.0.len() > 0 || main_tokens_spec(ts, policy)->Ok_0.1 is Some,
        main_tokens_spec(ts, policy)->Ok_0.0.len() <= ts.len(),
        main_tokens_spec(ts, policy)->Ok_0.1 is Some ==> policy is Some && !is_digit(main_tokens_spec(ts, policy)->Ok_0.1->0),
        (forall|i: int| 0 <= i < ts.len() ==> free_of(#[trigger] ts[i], x)) ==> {
            &&& (main_tokens_spec(ts, policy)->Ok_0.1 is Some ==> main_tokens_spec(ts, policy)->Ok_0.1->0 != x)
            &&& forall|j: int|
                0 <= j < main_tokens_spec(ts, policy)->Ok_0.0.len() ==> free_of(
                    decimal(#[trigger] main_tokens_spec(ts, policy)->Ok_0.0[j] as nat),
                    x,
                )
        },
    decreases ts.len(),
{
    if ts.len() > 0 {
        lemma_main_tokens_facts(ts.drop_last(), policy, x);
        let prev = main_tokens_spec(ts.drop_last(), policy)->Ok_0.0;
        let ns = main_tokens_spec(ts, policy)->Ok_0.0;
        let t = ts.last();
        if forall|i: int| 0 <= i < ts.len() ==> free_of(#[trigger] ts[i], x) {
            assert forall|i: int| 0 <= i < ts.drop_last().len() implies free_of(#[trigger] ts.drop_last()[i], x) by {
                assert(ts.drop_last()[i] == ts[i]);
            }
            assert(free_of(ts[ts.len() - 1], x));
            if ns.len() > prev.len() {
                let n = ns[ns.len() - 1];
                if is_digit(t.last()) {
                    lemma_decimal_of_text(t, x);
                } else {
                    let head = t.drop_last();
                    assert(free_of(head, x));
                    lemma_decimal_of_text(head, x);
                }
                assert forall|j: int| 0 <= j < ns.len() implies free_of(decimal(#[trigger] ns[j] as nat), x) by {
                    if j < prev.len() {
                        assert(ns[j] == prev[j]);
                    }
                }
            } else {
                assert(ns == prev);
            }
        }
    }
}

proof fn lemma_join_free(ns: Seq<u32>, x: char)
    requires
        forall|j: int| 0 <= j < ns.len() ==> free_of(decimal(#[trigger] ns[j] as nat), x),
        x != '.' || ns.len() <= 1,
    ensures
        free_of(join_numbers(ns), x),
    decreases ns.len(),
{
    if ns.len() == 1 {
        assert(free_of(decimal(ns[0] as nat), x));
    } else if ns.len() > 1 {
        assert forall|j: int| 0 <= j < ns.drop_last().len() implies free_of(decimal(#[trigger] ns.drop_last()[j] as nat), x) by {
            assert(ns.drop_last()[j] == ns[j]);
        }
        lemma_join_free(ns.drop_last(), x);
        assert(free_of(decimal(ns[ns.len() - 1] as nat), x));
        lemma_free_concat(join_numbers(ns.drop_last()), seq!['.'], x);
        assert(join_numbers(ns.drop_last()) + seq!['.'] =~= join_numbers(ns.drop_last()).push('.'));
        lemma_free_concat(join_numbers(ns.drop_last()).push('.'), decimal(ns.last() as nat), x);
    }
}

proof fn lemma_main_render_tokens(ns: Seq<u32>, l: Option<char>, policy: Option<bool>)
    requires
        ns.len() > 0 || l is Some,
        l is Some ==> policy is Some && !is_digit(l->0) && l->0 != '.',
    ensures
        main_tokens_spec(split_on(join_numbers(ns) + opt_seq(l), '.'), policy) == Ok::<
            (Seq<u32>, Option<char>),
            ParseError,
        >((ns, l)),
{
    let r = join_numbers(ns) + opt_seq(l);
    match l {
        None => {
            assert(opt_seq(l) =~= Seq::<char>::empty());
            assert(r =~= join_numbers(ns));
            lemma_join_split(ns);
            lemma_decimal_tokens(ns, policy);
            assert(split_on(r, '.') == decimals(ns));
            assert(main_tokens_spec(split_on(r, '.'), policy) == Ok::<(Seq<u32>, Option<char>), ParseError>((ns, l)));
        },
        Some(c) => {
            assert(r =~= join_numbers(ns).push(c));
            assert(r.drop_last() =~= join_numbers(ns));
            let p = split_on(join_numbers(ns), '.');
            lemma_split_on_nonempty(join_numbers(ns), '.');
            assert(split_on(r, '.') == p.update(p.len() - 1, p.last().push(c)));
            if ns.len() == 0 {
                assert(join_numbers(ns) =~= Seq::<char>::empty());
                assert(split_on(r, '.') =~= seq![seq![c]]);
                assert(seq![seq![c]].drop_last() =~= Seq::<Seq<char>>::empty());
                assert(seq![c].drop_last() =~= Seq::<char>::empty());
                assert(ns =~= Seq::<u32>::empty());
                let ts2 = seq![seq![c]];
                assert(main_tokens_spec(ts2.drop_last(), policy) == Ok::<(Seq<u32>, Option<char>), ParseError>((Seq::empty(), None)));
                assert(ts2.last() == seq![c]);
                assert(main_token_spec(seq![c], Seq::empty(), None, policy) == Ok::<(Seq<u32>, Option<char>), ParseError>((Seq::empty(), Some(c))));
                assert(main_tokens_spec(ts2, policy) == Ok::<(Seq<u32>, Option<char>), ParseError>((ns, l)));
            } else {
                lemma_join_split(ns);
                let ts2 = split_on(r, '.');
                assert(ts2.drop_last() =~= decimals(ns.drop_last()));
                lemma_decimal_tokens(ns.drop_last(), policy);
                let t = decimal(ns.last() as nat).push(c);
                assert(ts2.last() == t);
                assert(t.drop_last() =~= decimal(ns.last() as nat));
                lemma_decimal_number(ns.last() as nat, u32_max());
                assert(ns.drop_last().push(ns.last()) =~= ns);
                assert(main_tokens_spec(ts2, policy) == Ok::<(Seq<u32>, Option<char>), ParseError>((ns, l)));
            }
        },
    }
}

proof fn lemma_main_roundtrip(s: Seq<char>, policy: Option<bool>, x: char)
    requires
        parse_main_spec(s, policy) is Ok,
    ensures
        parse_main_spec(render_main(parse_main_spec(s, policy)->Ok_0), policy) == parse_main_spec(s, policy),
        free_of(s, x) ==> free_of(render_main(parse_main_spec(s, policy)->Ok_0), x),
{
    let m = parse_main_spec(s, policy)->Ok_0;
    let ts = split_on(s, '.');
    lemma_split_on_nonempty(s, '.');
    lemma_split_pieces(s, '.', x);
    lemma_main_tokens_facts(ts, policy, x);
    lemma_main_tokens_facts(ts, policy, '.');
    let ns = main_tokens_spec(ts, policy)->Ok_0.0;
    let l = main_tokens_spec(ts, policy)->Ok_0.1;
    assert(m.numbers == ns);
    assert(m.pre_letter == (if policy == Some(true) { l } else { None }));
    assert(m.post_letter == (if policy == Some(false) { l } else { None }));
    if l is Some {
        assert(policy is Some);
        if policy == Some(true) {
            assert(letter_of(m) == l);
        } else {
            assert(policy == Some(false));
            assert(m.pre_letter is None);
            assert(letter_of(m) == m.post_letter);
        }
    }
    assert(letter_of(m) == l);
    let r = render_main(m);
    assert(r == join_numbers(ns) + opt_seq(l));
    lemma_main_render_tokens(ns, l, policy);
    if free_of(s, x) {
        if x == '.' {
            lemma_split_free(s, '.');
        }
        lemma_join_free(ns, x);
        lemma_free_concat(join_numbers(ns), opt_seq(l), x);
    }
}

/// The shortest text of a number holds no character that its original text
/// did not hold.
proof fn lemma_decimal_of_text(s: Seq<char>, x: char)
    requires
        s.len() > 0,
        all_digits(s),
        free_of(s, x),
    ensures
        free_of(decimal(decimal_value(s)), x),
    decreases s.len(),
{
    let t = s.drop_last();
    let c = s.last();
    let v = decimal_value(s);
    assert(is_digit(s[s.len() - 1]));
    assert(digit_char(digit_value(c)) == c);
    assert(v == decimal_value(t) * 10 + digit_value(c));
    if t.len() == 0 {
        assert(decimal_value(t) == 0);
        assert(decimal(v) == seq![c]);
    } else {
        assert(all_digits(t)) by {
            assert forall|i: int| 0 <= i < t.len() implies is_digit(#[trigger] t[i]) by {
                assert(t[i] == s[i]);
            }
        }
        assert(free_of(t, x));
        lemma_decimal_of_text(t, x);
        let w = decimal_value(t);
        if w == 0 {
            assert(decimal(v) == seq![c]);
        } else {
            assert(v / 10 == w && v % 10 == digit_value(c)) by (nonlinear_arith)
                requires v == w * 10 + digit_value(c), digit_value(c) < 10;
            assert(decimal(v) == decimal(w).push(c));
        }
    }
}

/// The step `rc` with a number and no sub-qualifier: the form that `rcN`,
/// in any case, is read as.
pub open spec fn rc_normalized(p: PrereleaseView) -> bool {
    p.step == seq!['r', 'c'] && p.post_number is Some && p.post_step is None
}

proof fn lemma_rc_render(n: u8)
    ensures
        parse_prerelease_spec(seq!['r', 'c'] + decimal(n as nat)) == Ok::<Option<PrereleaseView>, ParseError>(
            Some(PrereleaseView { step: seq!['r', 'c'], post_number: Some(n), post_step: None }),
        ),
{
    let r = seq!['r', 'c'] + decimal(n as nat);
    lemma_decimal(n as nat);
    lemma_decimal_number(n as nat, u8_max());
    assert(free_of(r, '.')) by {
        assert forall|i: int| 0 <= i < r.len() implies r[i] != '.' by {
            if i >= 2 {
                assert(r[i] == decimal(n as nat)[i - 2]);
            }
        }
    }
    lemma_split_free(r, '.');
    assert(r.skip(2) =~= decimal(n as nat));
    assert(is_rc_form(r));
}

proof fn lemma_prerelease_roundtrip(s: Seq<char>, x: char)
    requires
        parse_prerelease_spec(s) is Ok,
        parse_prerelease_spec(s)->Ok_0 is Some,
    ensures
        render_prerelease(parse_prerelease_spec(s)->Ok_0->0).len() > 0,
        parse_prerelease_spec(render_prerelease(parse_prerelease_spec(s)->Ok_0->0)) == parse_prerelease_spec(s),
        free_of(s, x) && !((x == 'r' || x == 'c') && rc_normalized(parse_prerelease_spec(s)->Ok_0->0))
            ==> free_of(render_prerelease(parse_prerelease_spec(s)->Ok_0->0), x),
{
    let p = parse_prerelease_spec(s)->Ok_0->0;
    let pieces = split_on(s, '.');
    lemma_split_pieces(s, '.', x);
    let step = split_pair_spec(s, '.')->Ok_0.0;
    let second = split_pair_spec(s, '.')->Ok_0.1;
    let r = render_prerelease(p);
    if pieces.len() == 1 {
        lemma_split_one(s, '.');
    }
    if free_of(s, '.') {
        lemma_split_free(s, '.');
    }
    assert(free_of(step, '.'));
    assert(free_of(second, '.'));
    assert(free_of(s, x) ==> free_of(step, x) && free_of(second, x));
    if second.len() > 0 {
        assert(!free_of(s, '.'));
        if is_digit(second[0]) {
            let n = p.post_number->0;
            lemma_decimal(n as nat);
            lemma_decimal_number(n as nat, u8_max());
            if free_of(s, x) {
                lemma_decimal_of_text(second, x);
            }
            if step == seq!['r', 'c'] {
                assert(r == seq!['r', 'c'] + decimal(n as nat));
                lemma_rc_render(n);
                if free_of(s, x) {
                    lemma_free_concat(step, decimal(n as nat), x);
                }
            } else {
                assert(r == step.push('.') + decimal(n as nat));
                lemma_split_free(step, '.');
                lemma_split_append(step, '.', decimal(n as nat));
                assert(split_on(r, '.') =~= seq![step, decimal(n as nat)]);
                if free_of(s, x) {
                    lemma_free_concat(step, seq!['.'], x);
                    assert(step + seq!['.'] =~= step.push('.'));
                    lemma_free_concat(step.push('.'), decimal(n as nat), x);
                }
            }
        } else {
            assert(r == step.push('.') + second);
            lemma_split_free(step, '.');
            lemma_split_append(step, '.', second);
            assert(split_on(r, '.') =~= seq![step, second]);
            if free_of(s, x) {
                lemma_free_concat(step, seq!['.'], x);
                assert(step + seq!['.'] =~= step.push('.'));
                lemma_free_concat(step.push('.'), second, x);
            }
        }
    } else if is_rc_form(s) {
        let n = p.post_number->0;
        lemma_decimal(n as nat);
        assert(r == seq!['r', 'c'] + decimal(n as nat));
        lemma_rc_render(n);
        if free_of(s, x) && x != 'r' && x != 'c' {
            let tail = s.skip(2);
            assert(free_of(tail, x));
            lemma_decimal_of_text(tail, x);
            lemma_free_concat(seq!['r', 'c'], decimal(n as nat), x);
        }
    } else {
        assert(r == s);
    }
}

proof fn lemma_pair_facts(s: Seq<char>, d: char, x: char)
    requires
        split_pair_spec(s, d) is Ok,
    ensures
        free_of(split_pair_spec(s, d)->Ok_0.0, d),
        free_of(split_pair_spec(s, d)->Ok_0.1, d),
        free_of(s, x) ==> free_of(split_pair_spec(s, d)->Ok_0.0, x) && free_of(split_pair_spec(s, d)->Ok_0.1, x),
        split_pair_spec(s, d)->Ok_0.1.len() == 0 ==> split_pair_spec(s, d)->Ok_0.0 == s || split_on(s, d).len() == 2,
{
    lemma_split_pieces(s, d, x);
    if split_on(s, d).len() == 1 {
        lemma_split_one(s, d);
    }
}

proof fn lemma_parts_facts(tail: Seq<char>, x: char)
    requires
        split_version_prerelease_build_spec(tail) is Ok,
    ensures
        free_of(split_version_prerelease_build_spec(tail)->Ok_0.0, '-'),
        free_of(split_version_prerelease_build_spec(tail)->Ok_0.1, '-'),
        free_of(split_version_prerelease_build_spec(tail)->Ok_0.1, '+'),
        free_of(tail, x) ==> free_of(split_version_prerelease_build_spec(tail)->Ok_0.0, x)
            && free_of(split_version_prerelease_build_spec(tail)->Ok_0.1, x)
            && free_of(split_version_prerelease_build_spec(tail)->Ok_0.2, x),
        free_of(tail, '-') ==> split_version_prerelease_build_spec(tail)->Ok_0.1.len() == 0,
        free_of(tail, '+') ==> split_version_prerelease_build_spec(tail)->Ok_0.2.len() == 0,
{
    let main = split_pair_spec(tail, '-')->Ok_0.0;
    let rest = split_pair_spec(tail, '-')->Ok_0.1;
    lemma_pair_facts(tail, '-', x);
    lemma_pair_facts(tail, '-', '+');
    if free_of(tail, '-') {
        lemma_split_free(tail, '-');
    }
    if rest.len() == 0 {
        lemma_pair_facts(main, '+', x);
        lemma_pair_facts(main, '+', '-');
        if free_of(main, '+') {
            lemma_split_free(main, '+');
        }
    } else {
        lemma_pair_facts(rest, '+', x);
        lemma_pair_facts(rest, '+', '-');
        if free_of(rest, '+') {
            lemma_split_free(rest, '+');
        }
    }
}

proof fn lemma_free_concat(a: Seq<char>, b: Seq<char>, x: char)
    requires
        free_of(a, x),
        free_of(b, x),
    ensures
        free_of(a + b, x),
{
    assert forall|i: int| 0 <= i < (a + b).len() implies (a + b)[i] != x by {
        if i < a.len() {
            assert((a + b)[i] == a[i]);
        } else {
            assert((a + b)[i] == b[i - a.len()]);
        }
    }
}

spec fn build_text(b: Option<u8>) -> Seq<char> {
    match b {
        Some(n) => seq!['+'] + decimal(n as nat),
        None => Seq::empty(),
    }
}

spec fn build_raw(b: Option<u8>) -> Seq<char> {
    match b {
        Some(n) => decimal(n as nat),
        None => Seq::empty(),
    }
}

proof fn lemma_build_text(b: Option<u8>, x: char)
    requires
        b is Some ==> x != '+' && free_of(decimal(b->0 as nat), x),
    ensures
        free_of(build_text(b), x),
        free_of(build_raw(b), x),
        parse_build_spec(build_raw(b)) == Ok::<Option<u8>, ParseError>(b),
{
    if b is Some {
        let n = b->0;
        lemma_decimal(n as nat);
        lemma_decimal_number(n as nat, u8_max());
        lemma_free_concat(seq!['+'], decimal(n as nat), x);
    }
}

/// A main block and what follows it, each free of the delimiters that
/// would cut it, are split back into the same parts.
proof fn lemma_split_rendered(m: Seq<char>, pre: Option<Seq<char>>, b: Option<u8>)
    requires
        free_of(m, '-'),
        pre is None ==> free_of(m, '+'),
        pre is Some ==> pre->0.len() > 0 && free_of(pre->0, '-') && free_of(pre->0, '+'),
    ensures
        split_version_prerelease_build_spec(
            m + match pre {
                Some(p) => seq!['-'] + p,
                None => Seq::empty(),
            } + build_text(b),
        ) == Ok::<(Seq<char>, Seq<char>, Seq<char>), ParseError>(
            (
                m,
                match pre {
                    Some(p) => p,
                    None => Seq::empty(),
                },
                build_raw(b),
            ),
        ),
{
    if b is Some {
        lemma_decimal_number(b->0 as nat, u8_max());
    }
    lemma_build_text(b, '-');
    let bt = build_text(b);
    let br = build_raw(b);
    assert(b is Some ==> bt == seq!['+'] + br);
    match pre {
        Some(p) => {
            let t = m + (seq!['-'] + p) + bt;
            lemma_free_concat(p, bt, '-');
            assert(t =~= m.push('-') + (p + bt));
            lemma_split_free(m, '-');
            lemma_split_append(m, '-', p + bt);
            assert(split_on(t, '-') =~= seq![m, p + bt]);
            lemma_split_free(p, '+');
            if b is Some {
                assert(p + bt =~= p.push('+') + br);
                lemma_split_append(p, '+', br);
                assert(split_on(p + bt, '+') =~= seq![p, br]);
            } else {
                assert(p + bt =~= p);
            }
        },
        None => {
            let t = m + Seq::empty() + bt;
            assert(t =~= m + bt);
            lemma_free_concat(m, bt, '-');
            lemma_split_free(m + bt, '-');
            lemma_split_free(m, '+');
            if b is Some {
                assert(m + bt =~= m.push('+') + br);
                lemma_split_append(m, '+', br);
                assert(split_on(m + bt, '+') =~= seq![m, br]);
            } else {
                assert(m + bt =~= m);
            }
        },
    }
}

proof fn lemma_render_main_free(m: MainView, x: char)
    requires
        !is_digit(x),
        x != '.',
        letter_of(m) != Some(x),
    ensures
        free_of(render_main(m), x),
{
    lemma_join_chars(m.numbers, x);
    lemma_free_concat(join_numbers(m.numbers), opt_seq(letter_of(m)), x);
}

/// The versions whose text, under the delimiter, reads back as themselves:
/// a `+` letter needs a pre-release after it, and a delimiter `r` or `c`
/// must not meet the `rc` step that an `rcN` pre-release (`RC1`, say) is
/// read as.
pub open spec fn renders_faithfully(v: VersionView, delimiter: Option<char>) -> bool {
    &&& !(letter_of(v.main) == Some('+') && v.pre_release is None)
    &&& (delimiter == Some('r') || delimiter == Some('c')) ==> !(v.pre_release is Some
        && rc_normalized(v.pre_release->0))
}

spec fn pre_text(p: Option<PrereleaseView>) -> Option<Seq<char>> {
    match p {
        Some(x) => Some(render_prerelease(x)),
        None => None,
    }
}

/// Rendering a parsed version and parsing the text again, under the same
/// configuration, gives the same version.
pub proof fn parse_render_parse(s: Seq<char>, config: ParserConfig)
    requires
        parse_version_spec(s, config) is Ok,
        renders_faithfully(parse_version_spec(s, config)->Ok_0, config.epoch_delimiter),
    ensures
        parse_version_spec(
            render_version(parse_version_spec(s, config)->Ok_0, config.epoch_delimiter),
            config,
        ) == parse_version_spec(s, config),
{
    let v = parse_version_spec(s, config)->Ok_0;
    let delimiter = config.epoch_delimiter;
    let policy = config.pre_release_touchs_digit;
    let raw_epoch = split_epoch_tail_spec(s, delimiter)->Ok_0.0;
    let tail = split_epoch_tail_spec(s, delimiter)->Ok_0.1;
    let m_raw = split_version_prerelease_build_spec(tail)->Ok_0.0;
    let p_raw = split_version_prerelease_build_spec(tail)->Ok_0.1;
    let b_raw = split_version_prerelease_build_spec(tail)->Ok_0.2;
    let c = match delimiter {
        Some(d) => d,
        None => '-',
    };
    if delimiter is Some {
        lemma_split_pieces(s, c, c);
        if split_on(s, c).len() == 1 {
            lemma_split_one(s, c);
        }
        assert(free_of(tail, c));
    } else {
        assert(raw_epoch.len() == 0);
    }
    lemma_parts_facts(tail, c);
    lemma_main_roundtrip(m_raw, policy, '-');
    lemma_main_roundtrip(m_raw, policy, c);
    let m_text = render_main(v.main);
    assert(v.main == parse_main_spec(m_raw, policy)->Ok_0);
    if v.pre_release is None {
        lemma_render_main_free(v.main, '+');
    }
    if v.pre_release is Some {
        assert(p_raw.len() > 0);
        lemma_prerelease_roundtrip(p_raw, '-');
        lemma_prerelease_roundtrip(p_raw, '+');
        lemma_prerelease_roundtrip(p_raw, c);
    } else {
        assert(parse_prerelease_spec(p_raw) == Ok::<Option<PrereleaseView>, ParseError>(None));
        assert(p_raw.len() == 0);
    }
    lemma_split_rendered(m_text, pre_text(v.pre_release), v.build);
    let pre_part = match pre_text(v.pre_release) {
        Some(p) => seq!['-'] + p,
        None => Seq::empty(),
    };
    let t2 = m_text + pre_part + build_text(v.build);
    if v.build is Some && delimiter is Some {
        assert(b_raw.len() > 0);
        lemma_decimal_of_text(b_raw, c);
        assert(free_of(decimal(v.build->0 as nat), c));
    }
    if v.build is Some {
        lemma_decimal_number(v.build->0 as nat, u8_max());
    }
    lemma_build_text(v.build, '-');
    assert(parse_build_spec(b_raw) == Ok::<Option<u8>, ParseError>(v.build));
    let e_text = match (v.epoch, delimiter) {
        (Some(e), Some(d)) => decimal(e as nat).push(d),
        _ => Seq::empty(),
    };
    let r = render_version(v, delimiter);
    assert(r =~= e_text + t2);
    let pre_raw2 = match pre_text(v.pre_release) {
        Some(p) => p,
        None => Seq::empty(),
    };
    assert(split_version_prerelease_build_spec(t2) == Ok::<(Seq<char>, Seq<char>, Seq<char>), ParseError>(
        (m_text, pre_raw2, build_raw(v.build)),
    ));
    assert(parse_main_spec(m_text, policy) == Ok::<MainView, ParseError>(v.main));
    assert(parse_prerelease_spec(pre_raw2) == Ok::<Option<PrereleaseView>, ParseError>(v.pre_release));
    assert(parse_build_spec(build_raw(v.build)) == Ok::<Option<u8>, ParseError>(v.build));
    let e_raw = match (v.epoch, delimiter) {
        (Some(e), Some(_)) => decimal(e as nat),
        _ => Seq::empty(),
    };
    match delimiter {
        None => {
            assert(v.epoch is None);
            assert(r =~= t2);
        },
        Some(d) => {
            assert(d == c);
            lemma_build_text(v.build, c);
            lemma_free_concat(m_text, pre_part, d);
            if v.pre_release is Some {
                lemma_free_concat(seq!['-'], render_prerelease(v.pre_release->0), d);
            }
            lemma_free_concat(m_text + pre_part, build_text(v.build), d);
            assert(free_of(t2, d));
            match v.epoch {
                Some(e) => {
                    lemma_decimal(e as nat);
                    lemma_decimal_number(e as nat, u8_max());
                    assert(free_of(raw_epoch, d));
                    lemma_decimal_of_text(raw_epoch, d);
                    lemma_split_free(decimal(e as nat), d);
                    lemma_split_append(decimal(e as nat), d, t2);
                    assert(split_on(r, d) =~= seq![decimal(e as nat), t2]);
                    assert(parse_epoch_spec(decimal(e as nat)) == Ok::<Option<u8>, ParseError>(Some(e)));
                },
                None => {
                    assert(r =~= t2);
                    lemma_split_free(t2, d);
                },
            }
        },
    }
    assert(split_epoch_tail_spec(r, delimiter) == Ok::<(Seq<char>, Seq<char>), ParseError>((e_raw, t2)));
    assert(parse_epoch_spec(e_raw) == Ok::<Option<u8>, ParseError>(v.epoch));
}

} // verus!
