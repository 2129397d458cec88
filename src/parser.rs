//! Argument-level parsing: quoted and bare arguments, case-insensitive
//! character comparison, and lookup of options by unambiguous prefix.
use vstd::prelude::*;
use vstd::string::*;
use crate::command::parser::EnumValue;
use crate::command::texts;
use crate::error::GameError;
use crate::text::{is_blank, lower_of, lowercase, slice, split_chars, char_is_whitespace};

verus! {

pub open spec fn is_ascii_upper(c: char) -> bool {
    'A' <= c && c <= 'Z'
}

/// Equality of two characters ignoring ASCII case.
pub open spec fn ascii_fold_eq(l: char, r: char) -> bool {
    ||| l == r
    ||| is_ascii_upper(l) && r as u32 == l as u32 + 32
    ||| is_ascii_upper(r) && l as u32 == r as u32 + 32
}

/// Compares two characters, ignoring ASCII case.
pub fn cmp_ignore_case(l: char, r: char) -> (b: bool)
    ensures
        b == ascii_fold_eq(l, r),
{
    let lu = l as u32;
    let ru = r as u32;
    l == r || ('A' <= l && l <= 'Z' && ru == lu + 32) || ('A' <= r && r <= 'Z' && lu == ru + 32)
}

/// Whether `key` starts with `needle`.
pub open spec fn has_prefix(key: Seq<char>, needle: Seq<char>) -> bool {
    key.len() >= needle.len() && key.take(needle.len() as int) == needle
}

/// The indices among the first `n` keys that start with `needle`.
pub open spec fn prefix_matches(needle: Seq<char>, keys: Seq<Seq<char>>, n: nat) -> Seq<usize>
    decreases n,
{
    if n == 0 {
        Seq::empty()
    } else {
        let m = prefix_matches(needle, keys, (n - 1) as nat);
        if has_prefix(keys[n - 1], needle) {
            m.push((n - 1) as usize)
        } else {
            m
        }
    }
}

pub proof fn lemma_prefix_matches_bound(needle: Seq<char>, keys: Seq<Seq<char>>, n: nat)
    requires
        n <= usize::MAX,
    ensures
        forall|q: int|
            0 <= q < prefix_matches(needle, keys, n).len() ==> (#[trigger] prefix_matches(needle, keys, n)[q])
                < n,
    decreases n,
{
    if n > 0 {
        let prev = prefix_matches(needle, keys, (n - 1) as nat);
        lemma_prefix_matches_bound(needle, keys, (n - 1) as nat);
        let w = prefix_matches(needle, keys, n);
        assert forall|q: int| 0 <= q < w.len() implies #[trigger] w[q] < n by {
            if q < prev.len() {
                assert(w[q] == prev[q]);
            }
        }
    }
}

/// The result of looking up `needle` among `keys` by prefix.
pub open spec fn lookup_result(needle: Seq<char>, keys: Seq<Seq<char>>, r: Result<usize, GameError>) -> bool {
    let m = prefix_matches(needle, keys, keys.len());
    if m.len() == 1 {
        r == Ok::<usize, GameError>(m[0])
    } else if m.len() == 0 {
        r matches Err(GameError::InvalidInput(s)) && s@ == "Couldn't find any matching options"@
    } else {
        r matches Err(GameError::InvalidInput(s)) && s@ == "Ambiguous"@
    }
}

fn starts_with(key: &str, needle: &str) -> (b: bool)
    ensures
        b == has_prefix(key@, needle@),
{
    let kl = key.unicode_len();
    let nl = needle.unicode_len();
    if kl < nl {
        return false;
    }
    let mut i: usize = 0;
    while i < nl
        invariant
            i <= nl,
            nl == needle@.len(),
            kl == key@.len(),
            nl <= kl,
            forall|j: int| 0 <= j < i ==> key@[j] == needle@[j],
        decreases nl - i,
    {
        if key.get_char(i) != needle.get_char(i) {
            return false;
        }
        i = i + 1;
    }
    assert(key@.take(nl as int) =~= needle@);
    true
}

/// Finds the only key that starts with `needle`, both already in the form
/// to compare.
pub fn first_match(needle: &str, keys: &Vec<String>) -> (r: Result<usize, GameError>)
    ensures
        lookup_result(needle@, texts(keys@), r),
{
    let ghost ks = texts(keys@);
    let mut m: Vec<usize> = Vec::new();
    let mut i: usize = 0;
    while i < keys.len()
        invariant
            i <= keys@.len(),
            ks == texts(keys@),
            m@ == prefix_matches(needle@, ks, i as nat),
        decreases keys@.len() - i,
    {
        if starts_with(keys[i].as_str(), needle) {
            m.push(i);
        }
        i = i + 1;
    }
    if m.len() == 1 {
        Ok(m[0])
    } else if m.len() == 0 {
        Err(GameError::InvalidInput(String::from_str("Couldn't find any matching options")))
    } else {
        Err(GameError::InvalidInput(String::from_str("Ambiguous")))
    }
}

/// The keys of `haystack` in lower case.
pub open spec fn lowered_keys<K: EnumValue, T>(haystack: Seq<(K, T)>) -> Seq<Seq<char>> {
    haystack.map_values(|e: (K, T)| lower_of(e.0.text()))
}

/// Finds the value whose key starts with `needle`, ignoring case; fails
/// when no key or more than one does.
pub fn match_first<'a, K: EnumValue, T>(needle: &str, haystack: &'a [(K, T)]) -> (r: Result<&'a T, GameError>)
    ensures
        ({
            let m = prefix_matches(lower_of(needle@), lowered_keys(haystack@), haystack@.len() as nat);
            if m.len() == 1 {
                r matches Ok(v) && *v == haystack@[m[0] as int].1
            } else if m.len() == 0 {
                r matches Err(GameError::InvalidInput(s)) && s@ == "Couldn't find any matching options"@
            } else {
                r matches Err(GameError::InvalidInput(s)) && s@ == "Ambiguous"@
            }
        }),
{
    let lower_needle = lowercase(needle);
    let mut keys: Vec<String> = Vec::new();
    let mut i: usize = 0;
    while i < haystack.len()
        invariant
            i <= haystack@.len(),
            texts(keys@) =~= lowered_keys(haystack@).take(i as int),
        decreases haystack@.len() - i,
    {
        let t = haystack[i].0.to_text();
        let l = lowercase(t.as_str());
        let ghost prev = keys@;
        keys.push(l);
        proof {
            assert(texts(keys@) =~= texts(prev).push(l@));
            assert(lowered_keys(haystack@).take(i + 1) =~= lowered_keys(haystack@).take(i as int).push(l@));
        }
        i = i + 1;
    }
    assert(lowered_keys(haystack@).take(i as int) =~= lowered_keys(haystack@));
    match first_match(lower_needle.as_str(), &keys) {
        Ok(k) => {
            proof {
                lemma_prefix_matches_bound(lower_of(needle@), texts(keys@), keys@.len() as nat);
            }
            Ok(&haystack[k].1)
        },
        Err(e) => Err(e),
    }
}

/// The player-facing error for a failed argument parse: the messages, one
/// per line, if there are any; otherwise the expected items; otherwise a
/// generic text.
pub open spec fn expected_list_text(expected: Seq<Seq<char>>, i: nat) -> Seq<char>
    decreases expected.len() - i,
{
    if i >= expected.len() {
        Seq::empty()
    } else {
        let prefix = if i == 0 {
            "Expected"@
        } else if i < expected.len() - 1 {
            ","@
        } else {
            " or"@
        };
        prefix + " '"@ + expected[i as int] + "'"@ + expected_list_text(expected, i + 1)
    }
}

pub open spec fn lines_text(messages: Seq<Seq<char>>) -> Seq<char>
    decreases messages.len(),
{
    if messages.len() == 0 {
        Seq::empty()
    } else {
        lines_text(messages.drop_last()) + messages.last() + "\n"@
    }
}

pub open spec fn argument_error_text(messages: Seq<Seq<char>>, expected: Seq<Seq<char>>) -> Seq<char> {
    if messages.len() > 0 {
        lines_text(messages)
    } else if expected.len() > 0 {
        expected_list_text(expected, 0)
    } else {
        "Invalid input"@
    }
}

/// Turns the messages and expectations of a failed argument parse into an
/// `InvalidInput` error.
pub fn to_game_error(messages: &Vec<String>, expected: &Vec<String>) -> (r: GameError)
    ensures
        r matches GameError::InvalidInput(s) && s@ == argument_error_text(texts(messages@), texts(expected@)),
{
    let ghost ms = texts(messages@);
    let ghost es = texts(expected@);
    if messages.len() > 0 {
        let mut s = String::new();
        let mut i: usize = 0;
        while i < messages.len()
            invariant
                i <= messages@.len(),
                ms == texts(messages@),
                s@ == lines_text(ms.take(i as int)),
            decreases messages@.len() - i,
        {
            s.append(messages[i].as_str());
            s.append("\n");
            assert(ms.take(i + 1).drop_last() =~= ms.take(i as int));
            i = i + 1;
        }
        assert(ms.take(i as int) =~= ms);
        return GameError::InvalidInput(s);
    }
    if expected.len() > 0 {
        let n = expected.len();
        let mut s = String::new();
        let mut i: usize = 0;
        while i < n
            invariant
                i <= n,
                n == expected@.len(),
                es == texts(expected@),
                s@ + expected_list_text(es, i as nat) == expected_list_text(es, 0),
            decreases n - i,
        {
            if i == 0 {
                s.append("Expected");
            } else if i < n - 1 {
                s.append(",");
            } else {
                s.append(" or");
            }
            s.append(" '");
            s.append(expected[i].as_str());
            s.append("'");
            proof {
                assert(es[i as int] == expected@[i as int]@);
                assert(expected_list_text(es, i as nat) =~= (if i == 0 {
                    "Expected"@
                } else if i < n - 1 {
                    ","@
                } else {
                    " or"@
                }) + " '"@ + es[i as int] + "'"@ + expected_list_text(es, (i + 1) as nat));
            }
            i = i + 1;
        }
        assert(s@ =~= s@ + expected_list_text(es, i as nat));
        return GameError::InvalidInput(s);
    }
    GameError::InvalidInput(String::from_str("Invalid input"))
}

/// Number of characters at the start of `s` other than `q`.
pub open spec fn run_until(s: Seq<char>, q: char) -> nat
    decreases s.len(),
{
    if s.len() > 0 && s[0] != q {
        1 + run_until(s.skip(1), q)
    } else {
        0
    }
}

/// Number of non-whitespace characters at the start of `s`.
pub open spec fn word_run(s: Seq<char>) -> nat
    decreases s.len(),
{
    if s.len() > 0 && !is_blank(s[0]) {
        1 + word_run(s.skip(1))
    } else {
        0
    }
}

/// What a quoted argument yields: its content and how many characters it
/// takes with both quotes.
pub open spec fn quoted_spec(input: Seq<char>, q: char) -> Option<(Seq<char>, nat)> {
    let k = run_until(input.skip(1), q);
    if input.len() > 0 && input[0] == q && 1 + k < input.len() {
        Some((input.subrange(1, 1 + k as int), k + 2))
    } else {
        None
    }
}

/// The outcome of a quoted argument parse.
pub open spec fn quoted_result(input: Seq<char>, q: char, r: Result<(String, &str), GameError>) -> bool {
    match quoted_spec(input, q) {
        Some((content, n)) => r matches Ok((c, rest)) && c@ == content && rest@ == input.skip(n as int),
        None => r matches Err(GameError::InvalidInput(s)) && s@ == "Expected '"@ + seq![q] + "'"@,
    }
}

fn count_until(s: &str, from: usize, q: char) -> (r: usize)
    requires
        from <= s@.len(),
    ensures
        r == run_until(s@.skip(from as int), q),
        from + r <= s@.len(),
{
    let len = s.unicode_len();
    let mut i = from;
    assert(s@.skip(len as int).len() == 0);
    while i < len
        invariant_except_break
            from <= i <= len,
            len == s@.len(),
            run_until(s@.skip(from as int), q) == (i - from) + run_until(s@.skip(i as int), q),
        ensures
            from <= i <= len,
            run_until(s@.skip(from as int), q) == i - from,
        decreases len - i,
    {
        let c = s.get_char(i);
        assert(s@.skip(i as int)[0] == c);
        if c == q {
            break;
        }
        assert(s@.skip(i as int).skip(1) =~= s@.skip(i + 1));
        i = i + 1;
    }
    i - from
}

fn quoted<'a>(input: &'a str, q: char, qs: &str) -> (r: Result<(String, &'a str), GameError>)
    requires
        qs@ == seq![q],
    ensures
        quoted_result(input@, q, r),
{
    let len = input.unicode_len();
    if len == 0 || input.get_char(0) != q {
        let mut m = String::from_str("Expected '");
        m.append(qs);
        m.append("'");
        return Err(GameError::InvalidInput(m));
    }
    let k = count_until(input, 1, q);
    if 1 + k >= len {
        let mut m = String::from_str("Expected '");
        m.append(qs);
        m.append("'");
        return Err(GameError::InvalidInput(m));
    }
    let content = slice(input, 1, 1 + k);
    let (_, rest) = split_chars(input, k + 2);
    Ok((content.to_owned(), rest))
}

/// An argument between single quotes: its content and what follows the
/// closing quote.
pub fn quoted_single<'a>(input: &'a str) -> (r: Result<(String, &'a str), GameError>)
    ensures
        quoted_result(input@, '\'', r),
{
    proof {
        reveal_strlit("'");
        assert("'"@ =~= seq!['\'']);
    }
    quoted(input, '\'', "'")
}

/// An argument between double quotes: its content and what follows the
/// closing quote.
pub fn quoted_double<'a>(input: &'a str) -> (r: Result<(String, &'a str), GameError>)
    ensures
        quoted_result(input@, '"', r),
{
    proof {
        reveal_strlit("\"");
        assert("\""@ =~= seq!['"']);
    }
    quoted(input, '"', "\"")
}

/// The run of non-whitespace characters at the start of `input`, which must
/// not be empty, and what follows it.
pub fn non_spaces<'a>(input: &'a str) -> (r: Result<(String, &'a str), GameError>)
    ensures
        word_run(input@) > 0 ==> (r matches Ok((w, rest)) && w@ == input@.take(word_run(input@) as int) && rest@
            == input@.skip(word_run(input@) as int)),
        word_run(input@) == 0 ==> (r matches Err(GameError::InvalidInput(s)) && s@ == "Invalid input"@),
{
    let len = input.unicode_len();
    let mut i: usize = 0;
    assert(input@.skip(0) =~= input@);
    assert(input@.skip(len as int).len() == 0);
    while i < len
        invariant_except_break
            i <= len,
            len == input@.len(),
            word_run(input@) == i + word_run(input@.skip(i as int)),
        ensures
            i <= len,
            word_run(input@) == i,
        decreases len - i,
    {
        let c = input.get_char(i);
        assert(input@.skip(i as int)[0] == c);
        if char_is_whitespace(c) {
            break;
        }
        assert(input@.skip(i as int).skip(1) =~= input@.skip(i + 1));
        i = i + 1;
    }
    if i == 0 {
        return Err(GameError::InvalidInput(String::from_str("Invalid input")));
    }
    let (w, rest) = split_chars(input, i);
    Ok((w.to_owned(), rest))
}

/// One argument: quoted in single or double quotes, or else a run of
/// non-whitespace characters.
pub fn arg<'a>(input: &'a str) -> (r: Result<(String, &'a str), GameError>)
    ensures
        input@.len() > 0 && input@[0] == '\'' ==> quoted_result(input@, '\'', r),
        input@.len() > 0 && input@[0] == '"' ==> quoted_result(input@, '"', r),
        !(input@.len() > 0 && (input@[0] == '\'' || input@[0] == '"')) ==> (if word_run(input@) > 0 {
            r matches Ok((w, rest)) && w@ == input@.take(word_run(input@) as int) && rest@ == input@.skip(
                word_run(input@) as int,
            )
        } else {
            r matches Err(GameError::InvalidInput(s)) && s@ == "Invalid input"@
        }),
{
    let len = input.unicode_len();
    if len > 0 {
        let c = input.get_char(0);
        if c == '\'' {
            return quoted_single(input);
        }
        if c == '"' {
            return quoted_double(input);
        }
    }
    non_spaces(input)
}

} // verus!
