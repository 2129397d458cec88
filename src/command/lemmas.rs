//! Laws of the parsers, stated over their models and proved.
use vstd::prelude::*;
use crate::command::parser::{
    Chain2, Int, Many, OneOf, any_full, delim_len, full_hit, longest_full, wins, Parser, Token, at_offset, digit_run, digit_value, digits_value, is_digit,
    is_first_ok, lemma_max_offset_bounds, max_offset, merge_failures, number_len, number_value, sign_len,
};
use crate::error::ParseFailure;
use crate::text::{blank_run, caseless_eq, digit_char, is_blank, nat_text};

verus! {

/// `k` zero digits.
pub open spec fn zeros(k: nat) -> Seq<char> {
    Seq::new(k, |i: int| '0')
}

proof fn lemma_digit_char(d: nat)
    requires
        d < 10,
    ensures
        is_digit(digit_char(d)),
        digit_value(digit_char(d)) == d,
{
}

proof fn lemma_push_value(s: Seq<char>, c: char)
    ensures
        digits_value(s.push(c)) == digits_value(s) * 10 + digit_value(c),
{
    assert(s.push(c).drop_last() =~= s);
}

/// The decimal rendering of `n` is a non-empty run of digits denoting `n`.
pub proof fn lemma_nat_text(n: nat)
    ensures
        nat_text(n).len() >= 1,
        forall|i: int| 0 <= i < nat_text(n).len() ==> is_digit(#[trigger] nat_text(n)[i]),
        digits_value(nat_text(n)) == n,
    decreases n,
{
    if n < 10 {
        lemma_digit_char(n);
        assert(seq![digit_char(n)].drop_last() =~= Seq::<char>::empty());
        assert(digits_value(Seq::<char>::empty()) == 0);
        assert(digits_value(seq![digit_char(n)]) == n);
    } else {
        assert(n == (n / 10) * 10 + n % 10);
        lemma_nat_text(n / 10);
        lemma_digit_char(n % 10);
        lemma_push_value(nat_text(n / 10), digit_char(n % 10));
        let t = nat_text(n);
        assert forall|i: int| 0 <= i < t.len() implies is_digit(#[trigger] t[i]) by {
            if i < t.len() - 1 {
                assert(t[i] == nat_text(n / 10)[i]);
            }
        }
    }
}

proof fn lemma_digit_run_prefix(a: Seq<char>, b: Seq<char>)
    requires
        forall|i: int| 0 <= i < a.len() ==> is_digit(#[trigger] a[i]),
        b.len() == 0 || !is_digit(b[0]),
    ensures
        digit_run(a + b) == a.len(),
    decreases a.len(),
{
    if a.len() == 0 {
        assert(a + b =~= b);
    } else {
        assert((a + b).skip(1) =~= a.skip(1) + b);
        assert((a + b)[0] == a[0]);
        assert forall|i: int| 0 <= i < a.skip(1).len() implies is_digit(#[trigger] a.skip(1)[i]) by {
            assert(a.skip(1)[i] == a[i + 1 as int]);
        }
        lemma_digit_run_prefix(a.skip(1), b);
    }
}

proof fn lemma_zeros_value(k: nat, d: Seq<char>)
    ensures
        digits_value(zeros(k) + d) == digits_value(d),
    decreases d.len(), k,
{
    if d.len() == 0 {
        assert(zeros(k) + d =~= zeros(k));
        if k > 0 {
            assert(zeros(k).drop_last() =~= zeros((k - 1) as nat));
            lemma_zeros_value((k - 1) as nat, d);
            assert(zeros((k - 1) as nat) + d =~= zeros((k - 1) as nat));
        }
    } else {
        assert((zeros(k) + d).drop_last() =~= zeros(k) + d.drop_last());
        assert((zeros(k) + d).last() == d.last());
        lemma_zeros_value(k, d.drop_last());
    }
}

/// An unbounded `Int` reads a natural number written in decimal, with any
/// number of extra leading zeros, as that number: it consumes exactly the
/// digits and nothing after them. (Numbers beyond `i32` fail to parse.)
pub proof fn lemma_int_reads_decimal(p: Int, k: nat, n: nat, rest: Seq<char>)
    requires
        p.min is None,
        p.max is None,
        n <= i32::MAX,
        rest.len() == 0 || !is_digit(rest[0]),
    ensures
        p.outcome(zeros(k) + nat_text(n) + rest) == Ok::<nat, ParseFailure>(k + nat_text(n).len()),
        forall|v: i32| p.produces(zeros(k) + nat_text(n) + rest, v) <==> v as int == n,
{
    let d = zeros(k) + nat_text(n);
    let text = d + rest;
    lemma_nat_text(n);
    assert forall|i: int| 0 <= i < d.len() implies is_digit(#[trigger] d[i]) by {
        if i >= k {
            assert(d[i] == nat_text(n)[i - k]);
        }
    }
    assert(text[0] == d[0]);
    assert(sign_len(text) == 0);
    assert(text.skip(0) =~= text);
    lemma_digit_run_prefix(d, rest);
    assert(number_len(text) == d.len());
    assert(text.subrange(0, d.len() as int) =~= d);
    lemma_zeros_value(k, nat_text(n));
    assert(number_value(text) == n);
}

/// A bounded `Int` fails on any number outside its bounds and succeeds on
/// any number within them, consuming exactly the signed digit run.
pub proof fn lemma_int_bounds(p: Int, input: Seq<char>, min: i32, max: i32)
    requires
        p.min == Some(min),
        p.max == Some(max),
        digit_run(input.skip(sign_len(input) as int)) > 0,
    ensures
        (p.outcome(input) is Ok) <==> (min <= number_value(input) <= max),
        p.outcome(input) is Ok ==> p.outcome(input) == Ok::<nat, ParseFailure>(number_len(input)),
{
}

/// A `Token` succeeds exactly when the input starts, case-insensitively,
/// with its literal, and then consumes the literal's length.
pub proof fn lemma_token_prefix(t: Token, input: Seq<char>)
    ensures
        (t.outcome(input) is Ok) <==> (input.len() >= t.token@.len() && caseless_eq(
            input.take(t.token@.len() as int),
            t.token@,
        )),
        t.outcome(input) is Ok ==> t.outcome(input) == Ok::<nat, ParseFailure>(t.token@.len()),
{
}

/// Every failure kept when failures are merged is one that got furthest,
/// and the merged failure is as far as any of them.
pub proof fn lemma_merge_keeps_furthest(fs: Seq<ParseFailure>)
    ensures
        forall|j: int| 0 <= j < fs.len() ==> (#[trigger] fs[j]).offset <= merge_failures(fs).offset,
        forall|j: int|
            0 <= j < at_offset(fs, max_offset(fs)).len() ==> (#[trigger] at_offset(fs, max_offset(fs))[j]).offset
                == merge_failures(fs).offset,
{
    lemma_max_offset_bounds(fs);
    lemma_at_offset_all(fs, max_offset(fs));
}

proof fn lemma_at_offset_all(fs: Seq<ParseFailure>, m: nat)
    ensures
        forall|j: int| 0 <= j < at_offset(fs, m).len() ==> (#[trigger] at_offset(fs, m)[j]).offset == m,
    decreases fs.len(),
{
    if fs.len() > 0 {
        lemma_at_offset_all(fs.drop_last(), m);
        let prev = at_offset(fs.drop_last(), m);
        let cur = at_offset(fs, m);
        assert forall|j: int| 0 <= j < cur.len() implies (#[trigger] cur[j]).offset == m by {
            if j < prev.len() {
                assert(cur[j] == prev[j]);
            }
        }
    }
}

/// When every alternative of a `OneOf` fails, the reported failure is at
/// the furthest offset any of them reached, and is made only of the
/// failures of the alternatives that reached it.
pub proof fn lemma_one_of_furthest<T, TP: Parser<T> + ?Sized>(p: OneOf<T, TP>, input: Seq<char>)
    requires
        forall|i: int| 0 <= i < p.parsers@.len() ==> (#[trigger] p.outcomes(input)[i]) is Err,
    ensures
        ({
            let fs = Seq::new(p.parsers@.len(), |i: int| p.outcomes(input)[i]->Err_0);
            let best = at_offset(fs, max_offset(fs));
            &&& p.outcome(input) == Err::<nat, ParseFailure>(merge_failures(fs))
            &&& forall|j: int| 0 <= j < fs.len() ==> (#[trigger] fs[j]).offset <= merge_failures(fs).offset
            &&& forall|j: int| 0 <= j < best.len() ==> (#[trigger] best[j]).offset == merge_failures(fs).offset
        }),
{
    let outs = p.outcomes(input);
    let fs = Seq::new(p.parsers@.len(), |i: int| outs[i]->Err_0);
    assert(!exists|i: int| is_first_ok(outs, i));
    assert(Seq::new(outs.len(), |i: int| outs[i]->Err_0) =~= fs);
    lemma_merge_keeps_furthest(fs);
}

/// `Chain2` of two parsers that both consume something fails, at the end
/// of the first, when no whitespace follows the first; where either
/// consumes nothing, no whitespace is needed.
pub proof fn lemma_chain_needs_space<A, B, PA: Parser<A>, PB: Parser<B>>(c: Chain2<A, B, PA, PB>, input: Seq<char>, la: nat, lb: nat)
    requires
        c.a.outcome(input) == Ok::<nat, ParseFailure>(la),
        blank_run(input.skip(la as int)) == 0,
        c.b.outcome(input.skip(la as int)) == Ok::<nat, ParseFailure>(lb),
    ensures
        la > 0 && lb > 0 ==> c.outcome(input) == Err::<nat, ParseFailure>(
            ParseFailure { message: None, expected: seq!["whitespace"@], offset: la },
        ),
        la == 0 || lb == 0 ==> c.outcome(input) == Ok::<nat, ParseFailure>(la + lb),
{
    assert(input.skip(la as int).skip(0) =~= input.skip(la as int));
}

/// The items `ns[i..]` in decimal, each after the first preceded by its
/// whitespace `pre`, the delimiter and its whitespace `post`.
pub open spec fn joined_from(ns: Seq<nat>, pre: Seq<Seq<char>>, post: Seq<Seq<char>>, delim: Seq<char>, i: nat) -> Seq<
    char,
>
    decreases ns.len() - i,
{
    if i >= ns.len() {
        Seq::empty()
    } else if i + 1 < ns.len() {
        nat_text(ns[i as int]) + pre[i + 1 as int] + delim + post[i + 1 as int] + joined_from(ns, pre, post, delim, i + 1)
    } else {
        nat_text(ns[i as int])
    }
}

proof fn lemma_blank_prefix(a: Seq<char>, b: Seq<char>)
    requires
        forall|i: int| 0 <= i < a.len() ==> is_blank(#[trigger] a[i]),
        b.len() == 0 || !is_blank(b[0]),
    ensures
        blank_run(a + b) == a.len(),
    decreases a.len(),
{
    if a.len() == 0 {
        assert(a + b =~= b);
    } else {
        assert((a + b).skip(1) =~= a.skip(1) + b);
        assert((a + b)[0] == a[0]);
        assert forall|i: int| 0 <= i < a.skip(1).len() implies is_blank(#[trigger] a.skip(1)[i]) by {
            assert(a.skip(1)[i] == a[i + 1 as int]);
        }
        lemma_blank_prefix(a.skip(1), b);
    }
}

proof fn lemma_joined_suffix(ns: Seq<nat>, pre: Seq<Seq<char>>, post: Seq<Seq<char>>, delim: Seq<char>, i: nat)
    requires
        i < ns.len(),
    ensures
        ({
            let t = joined_from(ns, pre, post, delim, 0);
            let j = joined_from(ns, pre, post, delim, i);
            j.len() <= t.len() && t.skip(t.len() - j.len()) == j
        }),
    decreases i,
{
    let t = joined_from(ns, pre, post, delim, 0);
    if i == 0 {
        assert(t.skip(0) =~= t);
    } else {
        lemma_joined_suffix(ns, pre, post, delim, (i - 1) as nat);
        let p = joined_from(ns, pre, post, delim, (i - 1) as nat);
        let j = joined_from(ns, pre, post, delim, i);
        let head = nat_text(ns[i - 1]) + pre[i as int] + delim + post[i as int];
        assert(p == head + j);
        assert(t.skip(t.len() - j.len()) =~= p.skip(head.len() as int));
        assert(p.skip(head.len() as int) =~= j);
    }
}

proof fn lemma_joined_starts_with_digit(ns: Seq<nat>, pre: Seq<Seq<char>>, post: Seq<Seq<char>>, delim: Seq<char>, i: nat)
    requires
        i < ns.len(),
    ensures
        joined_from(ns, pre, post, delim, i).len() > 0,
        is_digit(joined_from(ns, pre, post, delim, i)[0]),
{
    lemma_nat_text(ns[i as int]);
    let j = joined_from(ns, pre, post, delim, i);
    assert(j[0] == nat_text(ns[i as int])[0]);
}

/// Where item `j` starts in the joined text.
pub open spec fn item_start(ns: Seq<nat>, pre: Seq<Seq<char>>, post: Seq<Seq<char>>, delim: Seq<char>, j: nat) -> nat {
    (joined_from(ns, pre, post, delim, 0).len() - joined_from(ns, pre, post, delim, j).len()) as nat
}

/// Conditions under which a joined text reads back as its items: the
/// separators are whitespace that holds no digit, the delimiter starts with
/// neither whitespace nor a digit and matches itself, and no digit is
/// whitespace.
pub open spec fn separable(pre: Seq<Seq<char>>, post: Seq<Seq<char>>, delim: Seq<char>, n: nat) -> bool {
    &&& pre.len() == n
    &&& post.len() == n
    &&& forall|i: int, k: int|
        0 <= i < n && 0 <= k < pre[i].len() ==> is_blank(#[trigger] pre[i][k]) && !is_digit(pre[i][k])
    &&& forall|i: int, k: int|
        0 <= i < n && 0 <= k < post[i].len() ==> is_blank(#[trigger] post[i][k]) && !is_digit(post[i][k])
    &&& delim.len() > 0
    &&& !is_blank(delim[0])
    &&& !is_digit(delim[0])
    &&& caseless_eq(delim, delim)
    &&& forall|c: char| is_digit(c) ==> !is_blank(c)
}

proof fn lemma_delim_in_joined(a: Seq<char>, delim: Seq<char>, b: Seq<char>, jn: Seq<char>)
    requires
        forall|k: int| 0 <= k < a.len() ==> is_blank(#[trigger] a[k]),
        forall|k: int| 0 <= k < b.len() ==> is_blank(#[trigger] b[k]),
        delim.len() > 0,
        !is_blank(delim[0]),
        caseless_eq(delim, delim),
        jn.len() > 0,
        !is_blank(jn[0]),
    ensures
        delim_len(a + delim + b + jn, delim) == Some(a.len() + delim.len() + b.len()),
{
    let rest = a + delim + b + jn;
    assert(rest =~= a + (delim + b + jn));
    assert((delim + b + jn)[0] == delim[0]);
    lemma_blank_prefix(a, delim + b + jn);
    let after = rest.skip(a.len() as int);
    assert(after =~= delim + b + jn);
    assert(after.take(delim.len() as int) =~= delim);
    assert(after.skip(delim.len() as int) =~= b + jn);
    if b.len() > 0 {
        assert((b + jn)[0] == b[0]);
    } else {
        assert((b + jn)[0] == jn[0]);
    }
    lemma_blank_prefix(b, jn);
}

/// Item `i` and what follows it in the joined text.
proof fn lemma_joined_split(ns: Seq<nat>, pre: Seq<Seq<char>>, post: Seq<Seq<char>>, delim: Seq<char>, i: nat)
    requires
        i < ns.len(),
        separable(pre, post, delim, ns.len()),
    ensures
        ({
            let ji = joined_from(ns, pre, post, delim, i);
            let item = nat_text(ns[i as int]);
            let tail = ji.skip(item.len() as int);
            &&& ji == item + tail
            &&& (tail.len() == 0 || !is_digit(tail[0]))
            &&& i + 1 < ns.len() ==> tail == pre[i + 1 as int] + delim + post[i + 1 as int] + joined_from(
                ns,
                pre,
                post,
                delim,
                i + 1,
            )
            &&& i + 1 >= ns.len() ==> tail.len() == 0
        }),
{
    let ji = joined_from(ns, pre, post, delim, i);
    let item = nat_text(ns[i as int]);
    if i + 1 < ns.len() {
        let tail = pre[i + 1 as int] + delim + post[i + 1 as int] + joined_from(ns, pre, post, delim, i + 1);
        assert(ji =~= item + tail);
        assert((item + tail).skip(item.len() as int) =~= tail);
        if pre[i + 1 as int].len() > 0 {
            assert(tail[0] == pre[i + 1 as int][0]);
            assert(!is_digit(pre[i + 1 as int][0]));
        } else {
            assert(tail[0] == delim[0]);
        }
    } else {
        assert(ji.skip(item.len() as int) =~= Seq::<char>::empty());
        assert(ji =~= item + Seq::<char>::empty());
    }
}

/// An unbounded `Int` reads item `i` of the joined text from its start.
proof fn lemma_int_on_joined(p: Int, ns: Seq<nat>, pre: Seq<Seq<char>>, post: Seq<Seq<char>>, delim: Seq<char>, i: nat)
    requires
        p.min is None,
        p.max is None,
        i < ns.len(),
        ns[i as int] <= i32::MAX,
        separable(pre, post, delim, ns.len()),
    ensures
        p.outcome(joined_from(ns, pre, post, delim, i)) == Ok::<nat, ParseFailure>(nat_text(ns[i as int]).len()),
        forall|v: i32| p.produces(joined_from(ns, pre, post, delim, i), v) <==> v as int == ns[i as int],
{
    let ji = joined_from(ns, pre, post, delim, i);
    let item = nat_text(ns[i as int]);
    let tail = ji.skip(item.len() as int);
    lemma_joined_split(ns, pre, post, delim, i);
    lemma_int_reads_decimal(p, 0, ns[i as int], tail);
    assert(zeros(0) + item + tail =~= ji);
}

#[verifier::rlimit(50)]
proof fn lemma_more_items_joined(m: Many<i32, Int>, ns: Seq<nat>, pre: Seq<Seq<char>>, post: Seq<Seq<char>>, i: nat)
    requires
        m.parser.min is None,
        m.parser.max is None,
        ns.len() >= 1,
        i < ns.len(),
        forall|j: int| 0 <= j < ns.len() ==> #[trigger] ns[j] <= i32::MAX,
        separable(pre, post, m.delim@, ns.len()),
        m.max is None || m.max->0 >= ns.len(),
    ensures
        ({
            let t = joined_from(ns, pre, post, m.delim@, 0);
            let e = item_start(ns, pre, post, m.delim@, i) + nat_text(ns[i as int]).len();
            m.more_items(t, e, i + 1) == (
                Seq::new((ns.len() - i - 1) as nat, |k: int| item_start(ns, pre, post, m.delim@, (i + 1 + k) as nat)),
                t.len(),
            )
        }),
    decreases ns.len() - i,
{
    let delim = m.delim@;
    let t = joined_from(ns, pre, post, delim, 0);
    let ji = joined_from(ns, pre, post, delim, i);
    let item = nat_text(ns[i as int]);
    let o = item_start(ns, pre, post, delim, i);
    let e = o + item.len();
    lemma_joined_suffix(ns, pre, post, delim, i);
    lemma_joined_split(ns, pre, post, delim, i);
    let tail = ji.skip(item.len() as int);
    assert(t.skip(e as int) =~= tail) by {
        assert(t.skip(e as int) =~= t.skip(o as int).skip(item.len() as int));
    }
    if i + 1 == ns.len() {
        assert(e == t.len());
        assert(Seq::<char>::empty().skip(0) =~= Seq::<char>::empty());
        assert(delim_len(t.skip(e as int), delim) is None);
        assert(Seq::new(0, |k: int| item_start(ns, pre, post, delim, (i + 1 + k) as nat)) =~= Seq::<nat>::empty());
    } else {
        let a = pre[i + 1 as int];
        let b = post[i + 1 as int];
        let jn = joined_from(ns, pre, post, delim, i + 1);
        lemma_joined_starts_with_digit(ns, pre, post, delim, i + 1);
        assert forall|k: int| 0 <= k < a.len() implies is_blank(#[trigger] a[k]) by {
            assert(is_blank(pre[i + 1 as int][k]));
        }
        assert forall|k: int| 0 <= k < b.len() implies is_blank(#[trigger] b[k]) by {
            assert(is_blank(post[i + 1 as int][k]));
        }
        lemma_delim_in_joined(a, delim, b, jn);
        let d = a.len() + delim.len() + b.len();
        let start = e + d;
        assert(start == item_start(ns, pre, post, delim, i + 1));
        lemma_joined_suffix(ns, pre, post, delim, i + 1);
        lemma_int_on_joined(m.parser, ns, pre, post, delim, i + 1);
        let c = nat_text(ns[i + 1 as int]).len();
        assert(m.parser.outcome(t.skip(start as int)) == Ok::<nat, ParseFailure>(c));
        lemma_nat_text(ns[i + 1 as int]);
        lemma_more_items_joined(m, ns, pre, post, i + 1);
        let rec = m.more_items(t, start + c, i + 2);
        assert(m.more_items(t, e, i + 1) == (seq![start] + rec.0, rec.1));
        assert(seq![start] + rec.0 =~= Seq::new(
            (ns.len() - i - 1) as nat,
            |k: int| item_start(ns, pre, post, delim, (i + 1 + k) as nat),
        ));
    }
}

/// `Many` of integers reads back a list of natural numbers written in
/// decimal and joined by its delimiter with optional whitespace around it:
/// it consumes the whole text and yields exactly those numbers, in order.
pub proof fn lemma_many_round_trip(m: Many<i32, Int>, ns: Seq<nat>, pre: Seq<Seq<char>>, post: Seq<Seq<char>>)
    requires
        m.parser.min is None,
        m.parser.max is None,
        ns.len() >= 1,
        forall|j: int| 0 <= j < ns.len() ==> #[trigger] ns[j] <= i32::MAX,
        separable(pre, post, m.delim@, ns.len()),
        m.max is None || m.max->0 >= ns.len(),
        m.min is None || m.min->0 <= ns.len(),
    ensures
        ({
            let t = joined_from(ns, pre, post, m.delim@, 0);
            &&& m.outcome(t) == Ok::<nat, ParseFailure>(t.len())
            &&& forall|vs: Vec<i32>|
                m.produces(t, vs) <==> (vs@.len() == ns.len() && forall|j: int|
                    0 <= j < ns.len() ==> (#[trigger] vs@[j]) as int == ns[j])
        }),
{
    let delim = m.delim@;
    let t = joined_from(ns, pre, post, delim, 0);
    lemma_int_on_joined(m.parser, ns, pre, post, delim, 0);
    assert(!m.empty_bounds());
    lemma_joined_suffix(ns, pre, post, delim, 0);
    assert(item_start(ns, pre, post, delim, 0) == 0);
    lemma_nat_text(ns[0]);
    lemma_more_items_joined(m, ns, pre, post, 0);
    let starts = Seq::new(ns.len(), |k: int| item_start(ns, pre, post, delim, k as nat));
    let rest = Seq::new((ns.len() - 1) as nat, |k: int| item_start(ns, pre, post, delim, (1 + k) as nat));
    assert(seq![0nat] + rest =~= starts);
    assert(m.items(t) == (starts, t.len()));
    assert forall|vs: Vec<i32>|
        m.produces(t, vs) <==> (vs@.len() == ns.len() && forall|j: int|
            0 <= j < ns.len() ==> (#[trigger] vs@[j]) as int == ns[j]) by {
        if vs@.len() == ns.len() {
            assert forall|j: int| 0 <= j < ns.len() implies (m.parser.produces(
                t.skip(starts[j] as int),
                #[trigger] vs@[j],
            ) <==> vs@[j] as int == ns[j]) by {
                lemma_joined_suffix(ns, pre, post, delim, j as nat);
                lemma_int_on_joined(m.parser, ns, pre, post, delim, j as nat);
            }
        }
    }
}

proof fn lemma_any_full(input_len: nat, lens: Seq<nat>, hits: Seq<bool>, exact: bool, n: nat, i: int)
    requires
        0 <= i < n,
        full_hit(input_len, lens, hits, exact, i),
    ensures
        any_full(input_len, lens, hits, exact, n),
        lens[i] <= longest_full(input_len, lens, hits, exact, n),
    decreases n,
{
    if i < n - 1 {
        lemma_any_full(input_len, lens, hits, exact, (n - 1) as nat, i);
    }
}

/// Once some candidate matches in full, no candidate that the input is only
/// a prefix of wins, and a full match wins exactly when no full match is
/// longer.
pub proof fn lemma_exact_match_promoted(input_len: nat, lens: Seq<nat>, hits: Seq<bool>, exact: bool, i: int)
    requires
        0 <= i < lens.len(),
        full_hit(input_len, lens, hits, exact, i),
    ensures
        forall|j: int| 0 <= j < lens.len() && #[trigger] wins(input_len, lens, hits, exact, j) ==> lens[j] <= input_len,
        wins(input_len, lens, hits, exact, i) <==> forall|j: int|
            0 <= j < lens.len() && #[trigger] full_hit(input_len, lens, hits, exact, j) ==> lens[j] <= lens[i],
{
    let n = lens.len();
    lemma_any_full(input_len, lens, hits, exact, n, i);
    let best = longest_full(input_len, lens, hits, exact, n);
    assert forall|j: int|
        0 <= j < n && #[trigger] full_hit(input_len, lens, hits, exact, j) implies lens[j] <= best by {
        lemma_any_full(input_len, lens, hits, exact, n, j);
    }
    if forall|j: int| 0 <= j < n && #[trigger] full_hit(input_len, lens, hits, exact, j) ==> lens[j] <= lens[i] {
        lemma_longest_full_attained(input_len, lens, hits, exact, n);
    }
}

proof fn lemma_longest_full_attained(input_len: nat, lens: Seq<nat>, hits: Seq<bool>, exact: bool, n: nat)
    requires
        n <= lens.len(),
        any_full(input_len, lens, hits, exact, n),
    ensures
        exists|j: int|
            0 <= j < n && #[trigger] full_hit(input_len, lens, hits, exact, j) && lens[j] == longest_full(
                input_len,
                lens,
                hits,
                exact,
                n,
            ),
    decreases n,
{
    let prev = longest_full(input_len, lens, hits, exact, (n - 1) as nat);
    if any_full(input_len, lens, hits, exact, (n - 1) as nat) {
        lemma_longest_full_attained(input_len, lens, hits, exact, (n - 1) as nat);
        let j = choose|j: int|
            0 <= j < n - 1 && #[trigger] full_hit(input_len, lens, hits, exact, j) && lens[j] == prev;
        if !(full_hit(input_len, lens, hits, exact, n - 1) && lens[n - 1] > prev) {
            assert(full_hit(input_len, lens, hits, exact, j) && lens[j] == longest_full(input_len, lens, hits, exact, n));
        } else {
            assert(full_hit(input_len, lens, hits, exact, n - 1));
        }
    } else {
        lemma_longest_full_zero(input_len, lens, hits, exact, (n - 1) as nat);
        assert(full_hit(input_len, lens, hits, exact, n - 1));
        if lens[n - 1] == 0 {
            assert(longest_full(input_len, lens, hits, exact, n) == 0);
        }
    }
}

proof fn lemma_longest_full_zero(input_len: nat, lens: Seq<nat>, hits: Seq<bool>, exact: bool, n: nat)
    requires
        !any_full(input_len, lens, hits, exact, n),
    ensures
        longest_full(input_len, lens, hits, exact, n) == 0,
    decreases n,
{
    if n > 0 {
        lemma_longest_full_zero(input_len, lens, hits, exact, (n - 1) as nat);
    }
}

} // verus!
