//! Character-level helpers shared by the parsers: case-insensitive
//! comparison, whitespace runs, slicing by character position and decimal
//! rendering of integers.
use vstd::prelude::*;
use vstd::string::*;

verus! {

/// Whether two texts are equal under Unicode case folding, as decided by
/// `unicase::eq`.
pub uninterp spec fn caseless_eq(a: Seq<char>, b: Seq<char>) -> bool;

/// Whether a character has the Unicode `White_Space` property, as decided
/// by `char::is_whitespace`.
pub uninterp spec fn is_blank(c: char) -> bool;

/// The lower-case form of a text, as produced by `str::to_lowercase`.
pub uninterp spec fn lower_of(s: Seq<char>) -> Seq<char>;

/// Relies on `unicase::eq`: case-less equality of two texts under Unicode
/// folding (ASCII case folding when both are ASCII).
#[verifier::external_body]
pub(crate) fn unicase_eq(a: &str, b: &str) -> (r: bool)
    ensures
        r == caseless_eq(a@, b@),
{
    unicase::eq(a, b)
}

/// Relies on `char::is_whitespace`: the result depends on the character alone.
#[verifier::external_body]
pub(crate) fn char_is_whitespace(c: char) -> (r: bool)
    ensures
        r == is_blank(c),
{
    c.is_whitespace()
}

/// Relies on `str::to_lowercase`: the result depends on the text alone.
#[verifier::external_body]
pub(crate) fn lowercase(s: &str) -> (r: String)
    ensures
        r@ == lower_of(s@),
{
    s.to_lowercase()
}

/// Length of the run of whitespace characters at the start of `s`.
pub open spec fn blank_run(s: Seq<char>) -> nat
    decreases s.len(),
{
    if s.len() > 0 && is_blank(s[0]) {
        1 + blank_run(s.skip(1))
    } else {
        0
    }
}

/// Number of whitespace characters in `s` starting at character `from`.
pub fn blank_run_at(s: &str, from: usize) -> (r: usize)
    requires
        from <= s@.len(),
    ensures
        r == blank_run(s@.skip(from as int)),
        from + r <= s@.len(),
{
    let len = s.unicode_len();
    let mut i = from;
    assert(s@.skip(len as int).len() == 0);
    while i < len
        invariant_except_break
            from <= i <= len,
            len == s@.len(),
            blank_run(s@.skip(from as int)) == (i - from) + blank_run(s@.skip(i as int)),
        ensures
            from <= i <= len,
            blank_run(s@.skip(from as int)) == i - from,
        decreases len - i,
    {
        let c = s.get_char(i);
        if !char_is_whitespace(c) {
            assert(s@.skip(i as int)[0] == c);
            break;
        }
        assert(s@.skip(i as int).skip(1) =~= s@.skip(i + 1));
        i = i + 1;
    }
    i - from
}

/// The characters of `s` from position `from` up to `to`.
pub fn slice<'a>(s: &'a str, from: usize, to: usize) -> (r: &'a str)
    requires
        from <= to <= s@.len(),
    ensures
        r@ == s@.subrange(from as int, to as int),
{
    s.substring_char(from, to)
}

/// Splits `s` after `n` characters.
pub fn split_chars<'a>(s: &'a str, n: usize) -> (r: (&'a str, &'a str))
    requires
        n <= s@.len(),
    ensures
        r.0@ == s@.take(n as int),
        r.1@ == s@.skip(n as int),
        r.0@ + r.1@ == s@,
{
    let len = s.unicode_len();
    let a = s.substring_char(0, n);
    let b = s.substring_char(n, len);
    assert(a@ + b@ =~= s@);
    assert(a@ =~= s@.take(n as int));
    assert(b@ =~= s@.skip(n as int));
    (a, b)
}

/// The decimal digit for `d < 10`.
pub open spec fn digit_char(d: nat) -> char {
    if d == 0 {
        '0'
    } else if d == 1 {
        '1'
    } else if d == 2 {
        '2'
    } else if d == 3 {
        '3'
    } else if d == 4 {
        '4'
    } else if d == 5 {
        '5'
    } else if d == 6 {
        '6'
    } else if d == 7 {
        '7'
    } else if d == 8 {
        '8'
    } else {
        '9'
    }
}

/// Decimal rendering of a natural number, without leading zeros.
pub open spec fn nat_text(n: nat) -> Seq<char>
    decreases n,
{
    if n < 10 {
        seq![digit_char(n)]
    } else {
        nat_text(n / 10).push(digit_char(n % 10))
    }
}

/// Decimal rendering of an integer, with a leading `-` when negative.
pub open spec fn int_text(i: int) -> Seq<char> {
    if i < 0 {
        seq!['-'] + nat_text((-i) as nat)
    } else {
        nat_text(i as nat)
    }
}

fn digit_str(d: u128) -> (r: &'static str)
    requires
        d < 10,
    ensures
        r@ == seq![digit_char(d as nat)],
{
    proof {
        reveal_strlit("0");
        reveal_strlit("1");
        reveal_strlit("2");
        reveal_strlit("3");
        reveal_strlit("4");
        reveal_strlit("5");
        reveal_strlit("6");
        reveal_strlit("7");
        reveal_strlit("8");
        reveal_strlit("9");
    }
    let r = if d == 0 {
        "0"
    } else if d == 1 {
        "1"
    } else if d == 2 {
        "2"
    } else if d == 3 {
        "3"
    } else if d == 4 {
        "4"
    } else if d == 5 {
        "5"
    } else if d == 6 {
        "6"
    } else if d == 7 {
        "7"
    } else if d == 8 {
        "8"
    } else {
        "9"
    };
    assert(r@ =~= seq![digit_char(d as nat)]);
    r
}

/// Appends the decimal rendering of `n` to `s`.
pub fn push_nat(s: &mut String, n: u128)
    ensures
        final(s)@ == old(s)@ + nat_text(n as nat),
    decreases n,
{
    if n >= 10 {
        push_nat(s, n / 10);
    }
    let d = digit_str(n % 10);
    s.append(d);
    assert(nat_text(n as nat) =~= if n < 10 {
        seq![digit_char(n as nat)]
    } else {
        nat_text((n / 10) as nat).push(digit_char((n % 10) as nat))
    });
}

/// Appends the decimal rendering of `i` to `s`.
pub fn push_int(s: &mut String, i: i64)
    ensures
        final(s)@ == old(s)@ + int_text(i as int),
{
    if i < 0 {
        s.append("-");
        proof {
            reveal_strlit("-");
        }
        let m: i128 = -(i as i128);
        push_nat(s, m as u128);
        assert(final(s)@ =~= old(s)@ + int_text(i as int));
    } else {
        push_nat(s, i as u128);
    }
}

} // verus!
