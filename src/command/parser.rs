//! Parser combinators: leaf parsers, composition, error ranking, and the
//! grammar spec each parser reifies to.
use vstd::prelude::*;
use vstd::string::*;
use std::marker::PhantomData;
use crate::command::{Spec, SpecModel, opt_text, texts};
use crate::error::{ParseError, ParseFailure};
use crate::text::{
    blank_run, blank_run_at, caseless_eq, int_text, push_int, push_nat,
    nat_text, split_chars, unicase_eq,
};

verus! {

/// Delimiter between the items of a `Many` unless configured otherwise.
pub const MANY_DELIM: &'static str = ",";

/// `items` joined by ", ", with `last` between the final two.
pub open spec fn join_list(items: Seq<Seq<char>>, last: Seq<char>) -> Seq<char>
    decreases items.len(),
{
    if items.len() == 0 {
        Seq::empty()
    } else if items.len() == 1 {
        items[0]
    } else if items.len() == 2 {
        items[0] + " "@ + last + " "@ + items[1]
    } else {
        items[0] + ", "@ + join_list(items.skip(1), last)
    }
}

pub open spec fn join_or(items: Seq<Seq<char>>) -> Seq<char> {
    join_list(items, "or"@)
}

pub open spec fn join_and(items: Seq<Seq<char>>) -> Seq<char> {
    join_list(items, "and"@)
}

fn comma_list_from(items: &[String], start: usize, last: &str) -> (r: String)
    requires
        start <= items@.len(),
    ensures
        r@ == join_list(texts(items@.skip(start as int)), last@),
    decreases items@.len() - start,
{
    let ghost rest = texts(items@.skip(start as int));
    let n = items.len() - start;
    if n == 0 {
        String::new()
    } else if n == 1 {
        assert(rest[0] == items@[start as int]@);
        items[start].clone()
    } else if n == 2 {
        let mut s = items[start].clone();
        s.append(" ");
        s.append(last);
        s.append(" ");
        s.append(items[start + 1].as_str());
        assert(rest[0] == items@[start as int]@);
        assert(rest[1] == items@[start + 1]@);
        assert(s@ =~= join_list(rest, last@));
        s
    } else {
        let mut s = items[start].clone();
        s.append(", ");
        let tail = comma_list_from(items, start + 1, last);
        s.append(tail.as_str());
        assert(rest[0] == items@[start as int]@);
        assert(rest.skip(1) =~= texts(items@.skip(start + 1)));
        assert(s@ =~= join_list(rest, last@));
        s
    }
}

/// Joins `items` with ", ", putting `last` between the final two.
pub fn comma_list(items: &[String], last: &str) -> (r: String)
    ensures
        r@ == join_list(texts(items@), last@),
{
    assert(items@.skip(0) =~= items@);
    comma_list_from(items, 0, last)
}

/// Joins `items` as alternatives: "a, b or c".
pub fn comma_list_or(items: &[String]) -> (r: String)
    ensures
        r@ == join_or(texts(items@)),
{
    comma_list(items, "or")
}

/// Joins `items` as required together: "a, b and c".
pub fn comma_list_and(items: &[String]) -> (r: String)
    ensures
        r@ == join_and(texts(items@)),
{
    comma_list(items, "and")
}

/// A successful parse: the value, the slice of the input that produced it,
/// and everything after that slice.
#[derive(Debug, PartialEq)]
pub struct Output<'a, T> {
    pub value: T,
    pub consumed: &'a str,
    pub remaining: &'a str,
}

/// A parser over values of type `T`.
///
/// `outcome` says how many characters a parse of a given input consumes, or
/// how it fails; `produces` relates the input to the values the parse may
/// yield; `expects` is what `expected` returns; `grammar` is what `to_spec`
/// returns.
pub trait Parser<T> {
    spec fn wf(&self) -> bool;

    spec fn outcome(&self, input: Seq<char>) -> Result<nat, ParseFailure>;

    spec fn produces(&self, input: Seq<char>, value: T) -> bool;

    spec fn expects(&self) -> Seq<Seq<char>>;

    spec fn grammar(&self) -> SpecModel;

    /// Consumes a prefix of `input`.
    fn parse<'a>(&self, input: &'a str) -> (r: Result<Output<'a, T>, ParseError>)
        requires
            self.wf(),
        ensures
            match r {
                Ok(o) => self.outcome(input@) == Ok::<nat, ParseFailure>(o.consumed@.len())
                    && o.consumed@ + o.remaining@ == input@ && self.produces(input@, o.value),
                Err(e) => self.outcome(input@) == Err::<nat, ParseFailure>(e@) && e.offset
                    <= input@.len(),
            },
    ;

    /// Descriptions of what this parser accepts.
    fn expected(&self) -> (r: Vec<String>)
        requires
            self.wf(),
        ensures
            texts(r@) == self.expects(),
    ;

    /// The grammar spec of this parser.
    fn to_spec(&self) -> (r: Spec)
        requires
            self.wf(),
        ensures
            r@ == self.grammar(),
    ;
}

/// A failure with no message at offset 0.
pub open spec fn plain_failure(expected: Seq<Seq<char>>) -> ParseFailure {
    ParseFailure { message: None, expected, offset: 0 }
}

/// A failure with a message at offset 0.
pub open spec fn failure_with(message: Seq<char>, expected: Seq<Seq<char>>) -> ParseFailure {
    ParseFailure { message: Some(message), expected, offset: 0 }
}

fn fail_plain<T>(expected: Vec<String>) -> (r: Result<T, ParseError>)
    ensures
        r matches Err(e) && e@ == plain_failure(texts(expected@)),
{
    Err(ParseError { message: None, expected, offset: 0 })
}

fn fail_with<T>(message: String, expected: Vec<String>) -> (r: Result<T, ParseError>)
    ensures
        r matches Err(e) && e@ == failure_with(message@, texts(expected@)),
{
    Err(ParseError { message: Some(message), expected, offset: 0 })
}

/// Matches a literal case-insensitively.
pub struct Token {
    pub token: String,
}

impl Token {
    pub fn new(token: &str) -> (r: Self)
        ensures
            r.token@ == token@,
    {
        Token { token: token.to_owned() }
    }
}

impl Parser<String> for Token {
    open spec fn wf(&self) -> bool {
        true
    }

    open spec fn outcome(&self, input: Seq<char>) -> Result<nat, ParseFailure> {
        let n = self.token@.len();
        if input.len() >= n && caseless_eq(input.take(n as int), self.token@) {
            Ok(n)
        } else {
            Err(plain_failure(seq![self.token@]))
        }
    }

    open spec fn produces(&self, input: Seq<char>, value: String) -> bool {
        value@ == self.token@
    }

    open spec fn expects(&self) -> Seq<Seq<char>> {
        seq![self.token@]
    }

    open spec fn grammar(&self) -> SpecModel {
        SpecModel::Token(self.token@)
    }

    fn parse<'a>(&self, input: &'a str) -> (r: Result<Output<'a, String>, ParseError>) {
        let n = self.token.as_str().unicode_len();
        let il = input.unicode_len();
        if il < n {
            return fail_plain(self.expected());
        }
        let (head, rest) = split_chars(input, n);
        if !unicase_eq(head, self.token.as_str()) {
            return fail_plain(self.expected());
        }
        Ok(Output { value: self.token.clone(), consumed: head, remaining: rest })
    }

    fn expected(&self) -> (r: Vec<String>) {
        let r = vec![self.token.clone()];
        assert(texts(r@) =~= self.expects());
        r
    }

    fn to_spec(&self) -> (r: Spec) {
        Spec::Token(self.token.clone())
    }
}

pub open spec fn is_digit(c: char) -> bool {
    '0' <= c && c <= '9'
}

pub open spec fn digit_value(c: char) -> nat {
    (c as u32 - '0' as u32) as nat
}

/// Length of the run of decimal digits at the start of `s`.
pub open spec fn digit_run(s: Seq<char>) -> nat
    decreases s.len(),
{
    if s.len() > 0 && is_digit(s[0]) {
        1 + digit_run(s.skip(1))
    } else {
        0
    }
}

/// The number that a run of decimal digits denotes.
pub open spec fn digits_value(d: Seq<char>) -> nat
    decreases d.len(),
{
    if d.len() == 0 {
        0
    } else {
        digits_value(d.drop_last()) * 10 + digit_value(d.last())
    }
}

/// 1 when `s` starts with a minus sign.
pub open spec fn sign_len(s: Seq<char>) -> nat {
    if s.len() > 0 && s[0] == '-' {
        1
    } else {
        0
    }
}

/// Length of the optionally signed digit run at the start of `s`.
pub open spec fn number_len(s: Seq<char>) -> nat {
    sign_len(s) + digit_run(s.skip(sign_len(s) as int))
}

/// The integer that the digit run at the start of `s` denotes.
pub open spec fn number_value(s: Seq<char>) -> int {
    let d = digits_value(s.subrange(sign_len(s) as int, number_len(s) as int));
    if sign_len(s) == 1 {
        -d
    } else {
        d as int
    }
}

/// How `Int` describes its bounds.
pub open spec fn int_phrase(min: Option<i32>, max: Option<i32>) -> Seq<char> {
    match (min, max) {
        (None, None) => "number"@,
        (Some(a), None) => "number "@ + int_text(a as int) + " or higher"@,
        (None, Some(b)) => "number "@ + int_text(b as int) + " or lower"@,
        (Some(a), Some(b)) => "number between "@ + int_text(a as int) + " and "@ + int_text(b as int),
    }
}

/// Matches an optionally negative decimal integer within optional bounds.
pub struct Int {
    pub min: Option<i32>,
    pub max: Option<i32>,
}

impl Int {
    pub fn any() -> (r: Self)
        ensures
            r.min is None && r.max is None,
    {
        Int { min: None, max: None }
    }

    pub fn positive() -> (r: Self)
        ensures
            r.min == Some(1i32) && r.max is None,
    {
        Int { min: Some(1), max: None }
    }

    pub fn not_negative() -> (r: Self)
        ensures
            r.min == Some(0i32) && r.max is None,
    {
        Int { min: Some(0), max: None }
    }

    pub fn bounded(min: i32, max: i32) -> (r: Self)
        ensures
            r.min == Some(min) && r.max == Some(max),
    {
        Int { min: Some(min), max: Some(max) }
    }

    fn expected_output(&self) -> (r: String)
        ensures
            r@ == int_phrase(self.min, self.max),
    {
        let mut s = String::new();
        match (self.min, self.max) {
            (None, None) => {
                s.append("number");
            },
            (Some(min), None) => {
                s.append("number ");
                push_int(&mut s, min as i64);
                s.append(" or higher");
            },
            (None, Some(max)) => {
                s.append("number ");
                push_int(&mut s, max as i64);
                s.append(" or lower");
            },
            (Some(min), Some(max)) => {
                s.append("number between ");
                push_int(&mut s, min as i64);
                s.append(" and ");
                push_int(&mut s, max as i64);
            },
        }
        assert(s@ =~= int_phrase(self.min, self.max));
        s
    }
}

impl Parser<i32> for Int {
    open spec fn wf(&self) -> bool {
        true
    }

    open spec fn outcome(&self, input: Seq<char>) -> Result<nat, ParseFailure> {
        let expected = seq![int_phrase(self.min, self.max)];
        let v = number_value(input);
        if digit_run(input.skip(sign_len(input) as int)) == 0 {
            Err(plain_failure(expected))
        } else if !(i32::MIN <= v <= i32::MAX) {
            Err(
                failure_with(
                    "failed to parse '"@ + input.take(number_len(input) as int) + "'"@,
                    expected,
                ),
            )
        } else if self.min is Some && v < self.min->0 {
            Err(failure_with(int_text(v) + " is too low"@, expected))
        } else if self.max is Some && v > self.max->0 {
            Err(failure_with(int_text(v) + " is too high"@, expected))
        } else {
            Ok(number_len(input))
        }
    }

    open spec fn produces(&self, input: Seq<char>, value: i32) -> bool {
        value as int == number_value(input)
    }

    open spec fn expects(&self) -> Seq<Seq<char>> {
        seq![int_phrase(self.min, self.max)]
    }

    open spec fn grammar(&self) -> SpecModel {
        SpecModel::Int { min: self.min, max: self.max }
    }

    fn parse<'a>(&self, input: &'a str) -> (r: Result<Output<'a, i32>, ParseError>) {
        let ghost s = input@;
        let len = input.unicode_len();
        let start: usize = if len > 0 && input.get_char(0) == '-' {
            1
        } else {
            0
        };
        assert(start == sign_len(s));
        let bound: u64 = 2147483648;
        let mut acc: u64 = 0;
        let mut over = false;
        let mut i = start;
        assert(s.subrange(start as int, start as int) =~= Seq::<char>::empty());
        while i < len
            invariant_except_break
                start <= i <= len,
                len == s.len(),
                s == input@,
                bound == 2147483648,
                digit_run(s.skip(start as int)) == (i - start) + digit_run(s.skip(i as int)),
                !over ==> acc == digits_value(s.subrange(start as int, i as int)) && acc <= bound,
                over ==> digits_value(s.subrange(start as int, i as int)) > bound,
            ensures
                start <= i <= len,
                s == input@,
                bound == 2147483648,
                digit_run(s.skip(start as int)) == i - start,
                !over ==> acc == digits_value(s.subrange(start as int, i as int)) && acc <= bound,
                over ==> digits_value(s.subrange(start as int, i as int)) > bound,
            decreases len - i,
        {
            let c = input.get_char(i);
            assert(s.skip(i as int)[0] == c);
            if !(c >= '0' && c <= '9') {
                break;
            }
            assert(s.skip(i as int).skip(1) =~= s.skip(i + 1));
            let ghost prev = s.subrange(start as int, i as int);
            let ghost next = s.subrange(start as int, i + 1);
            assert(next.drop_last() =~= prev);
            assert(next.last() == c);
            let d = (c as u32 - '0' as u32) as u64;
            if !over {
                if acc * 10 + d > bound {
                    over = true;
                } else {
                    acc = acc * 10 + d;
                }
            }
            i = i + 1;
        }
        proof {
            if i == len {
                assert(s.skip(len as int).len() == 0);
            }
        }
        assert(i == number_len(s));
        let expected = self.expected();
        if i == start {
            return fail_plain(expected);
        }
        let ghost dv = digits_value(s.subrange(start as int, i as int));
        assert(number_value(s) == if start == 1 { -dv } else { dv as int });
        let (head, rest) = split_chars(input, i);
        if over || (start == 0 && acc == bound) {
            let mut m = String::from_str("failed to parse '");
            m.append(head);
            m.append("'");
            assert(m@ =~= "failed to parse '"@ + s.take(number_len(s) as int) + "'"@);
            return fail_with(m, expected);
        }
        let value: i32 = if start == 1 {
            (0 - (acc as i64)) as i32
        } else {
            acc as i32
        };
        if let Some(min) = self.min {
            if value < min {
                let mut m = String::new();
                push_int(&mut m, value as i64);
                m.append(" is too low");
                return fail_with(m, expected);
            }
        }
        if let Some(max) = self.max {
            if value > max {
                let mut m = String::new();
                push_int(&mut m, value as i64);
                m.append(" is too high");
                return fail_with(m, expected);
            }
        }
        Ok(Output { value, consumed: head, remaining: rest })
    }

    fn expected(&self) -> (r: Vec<String>) {
        let r = vec![self.expected_output()];
        assert(texts(r@) =~= self.expects());
        r
    }

    fn to_spec(&self) -> (r: Spec) {
        Spec::Int { min: self.min, max: self.max }
    }
}

/// Matches a run of one or more whitespace characters.
struct Whitespace {}

impl Parser<String> for Whitespace {
    open spec fn wf(&self) -> bool {
        true
    }

    open spec fn outcome(&self, input: Seq<char>) -> Result<nat, ParseFailure> {
        if blank_run(input) == 0 {
            Err(plain_failure(seq!["whitespace"@]))
        } else {
            Ok(blank_run(input))
        }
    }

    open spec fn produces(&self, input: Seq<char>, value: String) -> bool {
        value@ == input.take(blank_run(input) as int)
    }

    open spec fn expects(&self) -> Seq<Seq<char>> {
        seq!["whitespace"@]
    }

    open spec fn grammar(&self) -> SpecModel {
        SpecModel::Space
    }

    fn parse<'a>(&self, input: &'a str) -> (r: Result<Output<'a, String>, ParseError>) {
        assert(input@.skip(0) =~= input@);
        let n = blank_run_at(input, 0);
        if n == 0 {
            return fail_plain(self.expected());
        }
        let (head, rest) = split_chars(input, n);
        Ok(Output { value: head.to_owned(), consumed: head, remaining: rest })
    }

    fn expected(&self) -> (r: Vec<String>) {
        let r = vec![String::from_str("whitespace")];
        assert(texts(r@) =~= self.expects());
        r
    }

    fn to_spec(&self) -> (r: Spec) {
        Spec::Space
    }
}

/// Transforms the value of a successful parse.
#[verifier::reject_recursive_types(T)]
#[verifier::reject_recursive_types(O)]
pub struct MapValue<T, O, F, TP> where F: Fn(T) -> O, TP: Parser<T> {
    pub parser: TP,
    pub map: F,
    pub t_type: PhantomData<T>,
    pub o_type: PhantomData<O>,
}

impl<T, O, F, TP> MapValue<T, O, F, TP> where F: Fn(T) -> O, TP: Parser<T> {
    pub fn new(parser: TP, map: F) -> (r: Self)
        ensures
            r.parser == parser,
            r.map == map,
    {
        MapValue { parser, map, t_type: PhantomData, o_type: PhantomData }
    }
}

impl<T, O, F, TP> Parser<O> for MapValue<T, O, F, TP> where F: Fn(T) -> O, TP: Parser<T> {
    open spec fn wf(&self) -> bool {
        &&& self.parser.wf()
        &&& forall|t: T| #[trigger] self.map.requires((t,))
    }

    open spec fn outcome(&self, input: Seq<char>) -> Result<nat, ParseFailure> {
        self.parser.outcome(input)
    }

    open spec fn produces(&self, input: Seq<char>, value: O) -> bool {
        exists|t: T| self.parser.produces(input, t) && #[trigger] self.map.ensures((t,), value)
    }

    open spec fn expects(&self) -> Seq<Seq<char>> {
        self.parser.expects()
    }

    open spec fn grammar(&self) -> SpecModel {
        self.parser.grammar()
    }

    fn parse<'a>(&self, input: &'a str) -> (r: Result<Output<'a, O>, ParseError>) {
        match self.parser.parse(input) {
            Ok(o) => {
                let ghost t = o.value;
                let value = (self.map)(o.value);
                assert(self.parser.produces(input@, t) && self.map.ensures((t,), value));
                Ok(Output { value, consumed: o.consumed, remaining: o.remaining })
            },
            Err(e) => Err(e),
        }
    }

    fn expected(&self) -> (r: Vec<String>) {
        self.parser.expected()
    }

    fn to_spec(&self) -> (r: Spec) {
        self.parser.to_spec()
    }
}

/// Prefixes each description with "optional ".
pub open spec fn optional_phrases(e: Seq<Seq<char>>) -> Seq<Seq<char>> {
    e.map_values(|x: Seq<char>| "optional "@ + x)
}

/// Succeeds with `None`, consuming nothing, where the wrapped parser fails.
pub struct Opt<T, TP> where TP: Parser<T> {
    pub parser: TP,
    pub t_type: PhantomData<T>,
}

impl<T, TP> Opt<T, TP> where TP: Parser<T> {
    pub fn new(parser: TP) -> (r: Self)
        ensures
            r.parser == parser,
    {
        Opt { parser, t_type: PhantomData }
    }
}

impl<T, TP> Parser<Option<T>> for Opt<T, TP> where TP: Parser<T> {
    open spec fn wf(&self) -> bool {
        self.parser.wf()
    }

    open spec fn outcome(&self, input: Seq<char>) -> Result<nat, ParseFailure> {
        match self.parser.outcome(input) {
            Ok(n) => Ok(n),
            Err(_) => Ok(0),
        }
    }

    open spec fn produces(&self, input: Seq<char>, value: Option<T>) -> bool {
        match self.parser.outcome(input) {
            Ok(_) => value is Some && self.parser.produces(input, value->0),
            Err(_) => value is None,
        }
    }

    open spec fn expects(&self) -> Seq<Seq<char>> {
        optional_phrases(self.parser.expects())
    }

    open spec fn grammar(&self) -> SpecModel {
        SpecModel::Opt(Box::new(self.parser.grammar()))
    }

    fn parse<'a>(&self, input: &'a str) -> (r: Result<Output<'a, Option<T>>, ParseError>) {
        match self.parser.parse(input) {
            Ok(o) => Ok(Output { value: Some(o.value), consumed: o.consumed, remaining: o.remaining }),
            Err(_) => {
                let (head, rest) = split_chars(input, 0);
                Ok(Output { value: None, consumed: head, remaining: rest })
            },
        }
    }

    fn expected(&self) -> (r: Vec<String>) {
        let inner = self.parser.expected();
        let mut r: Vec<String> = Vec::new();
        let mut i: usize = 0;
        while i < inner.len()
            invariant
                i <= inner@.len(),
                texts(r@) =~= optional_phrases(texts(inner@)).take(i as int),
            decreases inner@.len() - i,
        {
            let mut s = String::from_str("optional ");
            s.append(inner[i].as_str());
            let ghost prev = r@;
            r.push(s);
            proof {
                let all = optional_phrases(texts(inner@));
                assert(r@ == prev.push(s));
                assert(texts(r@) =~= texts(prev).push(s@));
                assert(all.take(i + 1) =~= all.take(i as int).push(all[i as int]));
            }
            i = i + 1;
        }
        assert(optional_phrases(texts(inner@)).take(i as int) =~= optional_phrases(texts(inner@)));
        r
    }

    fn to_spec(&self) -> (r: Spec) {
        Spec::Opt(Box::new(self.parser.to_spec()))
    }
}

/// Attaches a name and an optional description to a parser, for
/// documentation; parsing is unchanged.
pub struct Doc<T, TP> where TP: Parser<T> {
    pub name: String,
    pub desc: Option<String>,
    pub parser: TP,
    pub t_type: PhantomData<T>,
}

impl<T, TP> Doc<T, TP> where TP: Parser<T> {
    pub fn name(name: &str, parser: TP) -> (r: Self)
        ensures
            r.name@ == name@,
            r.desc is None,
            r.parser == parser,
    {
        Doc { name: name.to_owned(), desc: None, parser, t_type: PhantomData }
    }

    pub fn name_desc(name: &str, desc: &str, parser: TP) -> (r: Self)
        ensures
            r.name@ == name@,
            r.desc matches Some(d) && d@ == desc@,
            r.parser == parser,
    {
        Doc { name: name.to_owned(), desc: Some(desc.to_owned()), parser, t_type: PhantomData }
    }
}

impl<T, TP> Parser<T> for Doc<T, TP> where TP: Parser<T> {
    open spec fn wf(&self) -> bool {
        self.parser.wf()
    }

    open spec fn outcome(&self, input: Seq<char>) -> Result<nat, ParseFailure> {
        self.parser.outcome(input)
    }

    open spec fn produces(&self, input: Seq<char>, value: T) -> bool {
        self.parser.produces(input, value)
    }

    open spec fn expects(&self) -> Seq<Seq<char>> {
        self.parser.expects()
    }

    open spec fn grammar(&self) -> SpecModel {
        SpecModel::Doc { name: self.name@, desc: opt_text(self.desc), spec: Box::new(self.parser.grammar()) }
    }

    fn parse<'a>(&self, input: &'a str) -> (r: Result<Output<'a, T>, ParseError>) {
        self.parser.parse(input)
    }

    fn expected(&self) -> (r: Vec<String>) {
        self.parser.expected()
    }

    fn to_spec(&self) -> (r: Spec) {
        let desc = match &self.desc {
            Some(d) => Some(d.clone()),
            None => None,
        };
        Spec::Doc { name: self.name.clone(), desc, spec: Box::new(self.parser.to_spec()) }
    }
}

/// Where the second parser of a `Chain2` starts: after the first parser's
/// `la` characters and the whitespace run that follows them.
pub open spec fn after_sep(input: Seq<char>, la: nat) -> Seq<char> {
    let rest = input.skip(la as int);
    rest.skip(blank_run(rest) as int)
}

/// `A` then `B`, with whitespace between them required when both consume
/// something.
pub struct Chain2<A, B, PA, PB> where PA: Parser<A>, PB: Parser<B> {
    pub a: PA,
    pub b: PB,
    pub a_type: PhantomData<A>,
    pub b_type: PhantomData<B>,
}

impl<A, B, PA, PB> Chain2<A, B, PA, PB> where PA: Parser<A>, PB: Parser<B> {
    pub fn new(a: PA, b: PB) -> (r: Self)
        ensures
            r.a == a,
            r.b == b,
    {
        Chain2 { a, b, a_type: PhantomData, b_type: PhantomData }
    }
}

impl<A, B, PA, PB> Parser<(A, B)> for Chain2<A, B, PA, PB> where PA: Parser<A>, PB: Parser<B> {
    open spec fn wf(&self) -> bool {
        self.a.wf() && self.b.wf()
    }

    open spec fn outcome(&self, input: Seq<char>) -> Result<nat, ParseFailure> {
        match self.a.outcome(input) {
            Err(e) => Err(e),
            Ok(la) => {
                let ws = blank_run(input.skip(la as int));
                match self.b.outcome(after_sep(input, la)) {
                    Err(e) => Err(ParseFailure { offset: e.offset + la + ws, ..e }),
                    Ok(lb) => if la > 0 && lb > 0 && ws == 0 {
                        Err(ParseFailure { message: None, expected: seq!["whitespace"@], offset: la })
                    } else {
                        Ok(la + ws + lb)
                    },
                }
            },
        }
    }

    open spec fn produces(&self, input: Seq<char>, value: (A, B)) -> bool {
        match self.a.outcome(input) {
            Ok(la) => self.a.produces(input, value.0) && self.b.produces(after_sep(input, la), value.1),
            Err(_) => false,
        }
    }

    open spec fn expects(&self) -> Seq<Seq<char>> {
        self.a.expects()
    }

    open spec fn grammar(&self) -> SpecModel {
        SpecModel::Chain(seq![self.a.grammar(), self.b.grammar()])
    }

    fn parse<'a>(&self, input: &'a str) -> (r: Result<Output<'a, (A, B)>, ParseError>) {
        let il = input.unicode_len();
        let lhs = match self.a.parse(input) {
            Ok(o) => o,
            Err(e) => return Err(e),
        };
        let la = lhs.consumed.unicode_len();
        assert(lhs.remaining@ =~= input@.skip(la as int));
        assert(lhs.remaining@.skip(0) =~= lhs.remaining@);
        let ws = blank_run_at(lhs.remaining, 0);
        let (_, rem) = split_chars(lhs.remaining, ws);
        let rhs = match self.b.parse(rem) {
            Ok(o) => o,
            Err(e) => {
                return Err(ParseError { message: e.message, expected: e.expected, offset: e.offset + la + ws });
            },
        };
        let lb = rhs.consumed.unicode_len();
        if la > 0 && lb > 0 && ws == 0 {
            let ws_parser = Whitespace {};
            return Err(ParseError { message: None, expected: ws_parser.expected(), offset: la });
        }
        let (head, rest) = split_chars(input, la + ws + lb);
        Ok(Output { value: (lhs.value, rhs.value), consumed: head, remaining: rest })
    }

    fn expected(&self) -> (r: Vec<String>) {
        self.a.expected()
    }

    fn to_spec(&self) -> (r: Spec) {
        let r = Spec::Chain(vec![self.a.to_spec(), self.b.to_spec()]);
        proof {
            let v = seq![self.a.grammar(), self.b.grammar()];
            assert(r@ matches SpecModel::Chain(w) && w =~= v);
        }
        r
    }
}

/// Appends clones of `src` to `dst`.
fn extend_texts(dst: &mut Vec<String>, src: &Vec<String>)
    ensures
        texts(final(dst)@) == texts(old(dst)@) + texts(src@),
{
    let ghost start = texts(dst@);
    let mut i: usize = 0;
    while i < src.len()
        invariant
            i <= src@.len(),
            texts(dst@) =~= start + texts(src@).take(i as int),
        decreases src@.len() - i,
    {
        let ghost prev = dst@;
        dst.push(src[i].clone());
        proof {
            assert(texts(dst@) =~= texts(prev).push(src@[i as int]@));
            assert(texts(src@).take(i + 1) =~= texts(src@).take(i as int).push(src@[i as int]@));
        }
        i = i + 1;
    }
    assert(texts(src@).take(i as int) =~= texts(src@));
}

/// Whether `v` holds a text equal to `s`.
fn contains_text(v: &Vec<String>, s: &String) -> (r: bool)
    ensures
        r == texts(v@).contains(s@),
{
    let mut i: usize = 0;
    while i < v.len()
        invariant
            i <= v@.len(),
            forall|j: int| 0 <= j < i ==> texts(v@)[j] != s@,
        decreases v@.len() - i,
    {
        if v[i] == *s {
            assert(texts(v@)[i as int] == s@);
            return true;
        }
        i = i + 1;
    }
    false
}

/// The views of a sequence of parse errors.
pub open spec fn failure_views(v: Seq<ParseError>) -> Seq<ParseFailure> {
    v.map_values(|e: ParseError| e@)
}

/// The largest offset among `fs` (0 when empty).
pub open spec fn max_offset(fs: Seq<ParseFailure>) -> nat
    decreases fs.len(),
{
    if fs.len() == 0 {
        0
    } else {
        let m = max_offset(fs.drop_last());
        if fs.last().offset > m {
            fs.last().offset
        } else {
            m
        }
    }
}

/// The failures of `fs` whose offset is `m`, in order.
pub open spec fn at_offset(fs: Seq<ParseFailure>, m: nat) -> Seq<ParseFailure>
    decreases fs.len(),
{
    if fs.len() == 0 {
        Seq::empty()
    } else {
        let r = at_offset(fs.drop_last(), m);
        if fs.last().offset == m {
            r.push(fs.last())
        } else {
            r
        }
    }
}

/// The distinct messages of `fs`, in order of first appearance.
pub open spec fn messages_of(fs: Seq<ParseFailure>) -> Seq<Seq<char>>
    decreases fs.len(),
{
    if fs.len() == 0 {
        Seq::empty()
    } else {
        let r = messages_of(fs.drop_last());
        match fs.last().message {
            Some(m) => if r.contains(m) {
                r
            } else {
                r.push(m)
            },
            None => r,
        }
    }
}

/// The expected lists of `fs`, concatenated.
pub open spec fn expected_of(fs: Seq<ParseFailure>) -> Seq<Seq<char>>
    decreases fs.len(),
{
    if fs.len() == 0 {
        Seq::empty()
    } else {
        expected_of(fs.drop_last()) + fs.last().expected
    }
}

/// The single failure reported for failing alternatives: only those that
/// got furthest into the input contribute their messages and expectations.
pub open spec fn merge_failures(fs: Seq<ParseFailure>) -> ParseFailure {
    let best = at_offset(fs, max_offset(fs));
    let msgs = messages_of(best);
    ParseFailure {
        message: if msgs.len() == 0 {
            None
        } else {
            Some(join_or(msgs))
        },
        expected: expected_of(best),
        offset: max_offset(fs),
    }
}

pub proof fn lemma_max_offset_bounds(fs: Seq<ParseFailure>)
    ensures
        forall|j: int| 0 <= j < fs.len() ==> (#[trigger] fs[j]).offset <= max_offset(fs),
        fs.len() > 0 ==> exists|j: int| 0 <= j < fs.len() && (#[trigger] fs[j]).offset == max_offset(fs),
    decreases fs.len(),
{
    if fs.len() > 0 {
        let init = fs.drop_last();
        lemma_max_offset_bounds(init);
        assert forall|j: int| 0 <= j < fs.len() implies (#[trigger] fs[j]).offset <= max_offset(fs) by {
            if j < fs.len() - 1 {
                assert(fs[j] == init[j]);
            }
        }
        if fs.last().offset > max_offset(init) || init.len() == 0 {
            assert(fs[fs.len() - 1].offset == max_offset(fs));
        } else {
            let j = choose|j: int| 0 <= j < init.len() && (#[trigger] init[j]).offset == max_offset(init);
            assert(fs[j] == init[j]);
        }
    }
}

pub proof fn lemma_at_offset_none(fs: Seq<ParseFailure>, m: nat)
    requires
        forall|j: int| 0 <= j < fs.len() ==> (#[trigger] fs[j]).offset < m,
    ensures
        at_offset(fs, m) == Seq::<ParseFailure>::empty(),
    decreases fs.len(),
{
    if fs.len() > 0 {
        let init = fs.drop_last();
        assert forall|j: int| 0 <= j < init.len() implies (#[trigger] init[j]).offset < m by {
            assert(init[j] == fs[j]);
        }
        lemma_at_offset_none(init, m);
        assert(fs[fs.len() - 1] == fs.last());
    }
}

/// The first index whose outcome is a success, if any.
pub open spec fn is_first_ok(outs: Seq<Result<nat, ParseFailure>>, i: int) -> bool {
    &&& 0 <= i < outs.len()
    &&& outs[i] is Ok
    &&& forall|j: int| 0 <= j < i ==> (#[trigger] outs[j]) is Err
}

/// Tries each alternative in order and returns the first success; when all
/// fail, reports the failures of those that got furthest.
pub struct OneOf<T, TP> where TP: Parser<T> + ?Sized {
    pub parsers: Vec<Box<TP>>,
    pub t_type: PhantomData<T>,
}

impl<T, TP> OneOf<T, TP> where TP: Parser<T> + ?Sized {
    pub fn new(parsers: Vec<Box<TP>>) -> (r: Self)
        ensures
            r.parsers@ == parsers@,
    {
        OneOf { parsers, t_type: PhantomData }
    }

    /// The outcome of each alternative on `input`.
    pub open spec fn outcomes(&self, input: Seq<char>) -> Seq<Result<nat, ParseFailure>> {
        Seq::new(self.parsers@.len(), |i: int| self.parsers@[i].outcome(input))
    }

    /// The index of the alternative whose success is returned.
    pub open spec fn chosen(&self, input: Seq<char>) -> int {
        choose|i: int| is_first_ok(self.outcomes(input), i)
    }
}

/// Concatenation of a sequence of sequences, from the back.
pub open spec fn concat_all(ss: Seq<Seq<Seq<char>>>) -> Seq<Seq<char>>
    decreases ss.len(),
{
    if ss.len() == 0 {
        Seq::empty()
    } else {
        concat_all(ss.drop_last()) + ss.last()
    }
}

impl<T, TP> Parser<T> for OneOf<T, TP> where TP: Parser<T> + ?Sized {
    open spec fn wf(&self) -> bool {
        forall|i: int| 0 <= i < self.parsers@.len() ==> (#[trigger] self.parsers@[i]).wf()
    }

    open spec fn outcome(&self, input: Seq<char>) -> Result<nat, ParseFailure> {
        let outs = self.outcomes(input);
        if exists|i: int| is_first_ok(outs, i) {
            outs[self.chosen(input)]
        } else {
            Err(merge_failures(Seq::new(outs.len(), |i: int| outs[i]->Err_0)))
        }
    }

    open spec fn produces(&self, input: Seq<char>, value: T) -> bool {
        self.parsers@[self.chosen(input)].produces(input, value)
    }

    open spec fn expects(&self) -> Seq<Seq<char>> {
        concat_all(Seq::new(self.parsers@.len(), |i: int| self.parsers@[i].expects()))
    }

    open spec fn grammar(&self) -> SpecModel {
        SpecModel::OneOf(Seq::new(self.parsers@.len(), |i: int| self.parsers@[i].grammar()))
    }

    fn parse<'a>(&self, input: &'a str) -> (r: Result<Output<'a, T>, ParseError>) {
        let ghost outs = self.outcomes(input@);
        let ghost fs = Seq::new(outs.len(), |i: int| outs[i]->Err_0);
        let mut errors: Vec<ParseError> = Vec::new();
        let mut best: usize = 0;
        let mut i: usize = 0;
        while i < self.parsers.len()
            invariant
                self.wf(),
                i <= self.parsers@.len(),
                outs == self.outcomes(input@),
                fs == Seq::new(outs.len(), |i: int| outs[i]->Err_0),
                forall|j: int| 0 <= j < i ==> (#[trigger] outs[j]) is Err,
                best == max_offset(fs.take(i as int)),
                best <= input@.len(),
                failure_views(errors@) == at_offset(fs.take(i as int), best as nat),
            decreases self.parsers@.len() - i,
        {
            match self.parsers[i].parse(input) {
                Ok(o) => {
                    proof {
                        assert(is_first_ok(outs, i as int));
                        let c = self.chosen(input@);
                        assert(is_first_ok(outs, c));
                        if c < i {
                            assert(outs[c] is Err);
                        }
                        if c > i {
                            assert(outs[i as int] is Err);
                        }
                    }
                    return Ok(o);
                },
                Err(e) => {
                    let ghost pre = fs.take(i as int);
                    assert(fs.take(i + 1) =~= pre.push(e@));
                    assert(fs.take(i + 1).drop_last() =~= pre);
                    let ghost prev = errors@;
                    if e.offset > best {
                        proof {
                            lemma_max_offset_bounds(pre);
                            assert forall|j: int| 0 <= j < pre.len() implies (#[trigger] pre[j]).offset < e.offset by {}
                            lemma_at_offset_none(pre, e.offset as nat);
                        }
                        best = e.offset;
                        errors = vec![e];
                        assert(failure_views(errors@) =~= seq![fs[i as int]]);
                    } else if e.offset == best {
                        errors.push(e);
                        assert(failure_views(errors@) =~= failure_views(prev).push(fs[i as int]));
                    }
                },
            }
            i = i + 1;
        }
        proof {
            assert(!exists|k: int| is_first_ok(outs, k));
            assert(fs.take(i as int) =~= fs);
        }
        let mut messages: Vec<String> = Vec::new();
        let mut expected: Vec<String> = Vec::new();
        let ghost views = failure_views(errors@);
        let mut k: usize = 0;
        while k < errors.len()
            invariant
                k <= errors@.len(),
                views == failure_views(errors@),
                texts(messages@) == messages_of(views.take(k as int)),
                texts(expected@) == expected_of(views.take(k as int)),
            decreases errors@.len() - k,
        {
            let ghost pre = views.take(k as int);
            assert(views.take(k + 1).drop_last() =~= pre);
            assert(views.take(k + 1).last() == errors@[k as int]@);
            match &errors[k].message {
                Some(m) => {
                    if !contains_text(&messages, m) {
                        let ghost before = messages@;
                        messages.push(m.clone());
                        assert(texts(messages@) =~= texts(before).push(m@));
                    }
                },
                None => {},
            }
            extend_texts(&mut expected, &errors[k].expected);
            k = k + 1;
        }
        assert(views.take(k as int) =~= views);
        let message = if messages.len() == 0 {
            None
        } else {
            Some(comma_list_or(messages.as_slice()))
        };
        Err(ParseError { message, expected, offset: best })
    }

    fn expected(&self) -> (r: Vec<String>) {
        let ghost all = Seq::new(self.parsers@.len(), |i: int| self.parsers@[i].expects());
        let mut r: Vec<String> = Vec::new();
        let mut i: usize = 0;
        while i < self.parsers.len()
            invariant
                self.wf(),
                i <= self.parsers@.len(),
                all == Seq::new(self.parsers@.len(), |i: int| self.parsers@[i].expects()),
                texts(r@) == concat_all(all.take(i as int)),
            decreases self.parsers@.len() - i,
        {
            let e = self.parsers[i].expected();
            extend_texts(&mut r, &e);
            assert(all.take(i + 1).drop_last() =~= all.take(i as int));
            i = i + 1;
        }
        assert(all.take(i as int) =~= all);
        r
    }

    fn to_spec(&self) -> (r: Spec) {
        let mut v: Vec<Spec> = Vec::new();
        let mut i: usize = 0;
        while i < self.parsers.len()
            invariant
                self.wf(),
                i <= self.parsers@.len(),
                v@.len() == i,
                forall|j: int| 0 <= j < i ==> (#[trigger] v@[j])@ == self.parsers@[j].grammar(),
            decreases self.parsers@.len() - i,
        {
            v.push(self.parsers[i].to_spec());
            i = i + 1;
        }
        let r = Spec::OneOf(v);
        proof {
            let w = Seq::new(self.parsers@.len(), |i: int| self.parsers@[i].grammar());
            assert(r@ matches SpecModel::OneOf(x) && x =~= w);
        }
        r
    }
}

/// Length of a delimiter with optional whitespace on both sides at the start
/// of `rest`, if one is there.
pub open spec fn delim_len(rest: Seq<char>, delim: Seq<char>) -> Option<nat> {
    let w1 = blank_run(rest);
    let after = rest.skip(w1 as int);
    let n = delim.len();
    if after.len() >= n && caseless_eq(after.take(n as int), delim) {
        Some(w1 + n + blank_run(after.skip(n as int)))
    } else {
        None
    }
}

fn delim_len_at(rest: &str, delim: &str) -> (r: Option<usize>)
    ensures
        match r {
            Some(n) => delim_len(rest@, delim@) == Some(n as nat) && n <= rest@.len(),
            None => delim_len(rest@, delim@) is None,
        },
{
    let rl = rest.unicode_len();
    assert(rest@.skip(0) =~= rest@);
    let w1 = blank_run_at(rest, 0);
    let (_, after) = split_chars(rest, w1);
    let n = delim.unicode_len();
    if rl - w1 < n {
        return None;
    }
    let (head, tail) = split_chars(after, n);
    if !unicase_eq(head, delim) {
        return None;
    }
    assert(tail@.skip(0) =~= tail@);
    let w2 = blank_run_at(tail, 0);
    Some(w1 + n + w2)
}

/// "expected at least `min` items but could only parse `n`".
pub open spec fn count_message(min: nat, n: nat) -> Seq<char> {
    "expected at least "@ + nat_text(min) + " items but could only parse "@ + nat_text(n)
}

/// How `Many` describes one of its child's expectations.
pub open spec fn many_phrase(min: Option<usize>, max: Option<usize>, e: Seq<char>) -> Seq<char> {
    match (min, max) {
        (None, None) => "any number of "@ + e,
        (Some(a), None) => nat_text(a as nat) + " or more "@ + e,
        (None, Some(b)) => "up to "@ + nat_text(b as nat) + " "@ + e,
        (Some(a), Some(b)) => "between "@ + nat_text(a as nat) + " and "@ + nat_text(b as nat) + " "@ + e,
    }
}

/// Repetition of a parser, its items separated by a delimiter that may have
/// whitespace on either side, within optional count bounds.
pub struct Many<T, TP> where TP: Parser<T> {
    pub parser: TP,
    pub min: Option<usize>,
    pub max: Option<usize>,
    pub delim: String,
    pub t_type: PhantomData<T>,
}

impl<T, TP> Many<T, TP> where TP: Parser<T> {
    pub fn any(parser: TP) -> (r: Self)
        ensures
            r.parser == parser,
            r.min is None,
            r.max is None,
            r.delim@ == MANY_DELIM@,
    {
        Many { parser, min: None, max: None, delim: MANY_DELIM.to_owned(), t_type: PhantomData }
    }

    pub fn some(parser: TP) -> (r: Self)
        ensures
            r.parser == parser,
            r.min == Some(1usize),
            r.max is None,
            r.delim@ == MANY_DELIM@,
    {
        Many { parser, min: Some(1), max: None, delim: MANY_DELIM.to_owned(), t_type: PhantomData }
    }

    pub fn bounded(parser: TP, min: usize, max: usize) -> (r: Self)
        ensures
            r.parser == parser,
            r.min == Some(min),
            r.max == Some(max),
            r.delim@ == MANY_DELIM@,
    {
        Many { parser, min: Some(min), max: Some(max), delim: MANY_DELIM.to_owned(), t_type: PhantomData }
    }

    /// Whether the bounds admit no item at all, so that nothing is parsed.
    pub open spec fn empty_bounds(&self) -> bool {
        self.max matches Some(mx) && (mx == 0 || mx < match self.min {
            Some(mn) => mn,
            None => 0,
        })
    }

    /// The items after one that ends at `offset`, `count` items being taken
    /// so far: their start positions, and where the last one ends. The
    /// repetition ends at `max` items, where no delimiter and item follow,
    /// or where a delimiter and item together take no characters (which
    /// would repeat forever).
    pub open spec fn more_items(&self, input: Seq<char>, offset: nat, count: nat) -> (Seq<nat>, nat)
        decreases input.len() - offset,
    {
        if (self.max matches Some(mx) && count >= mx) || offset > input.len() {
            (Seq::empty(), offset)
        } else {
            match delim_len(input.skip(offset as int), self.delim@) {
                None => (Seq::empty(), offset),
                Some(d) => {
                    let start = offset + d;
                    match self.parser.outcome(input.skip(start as int)) {
                        Err(_) => (Seq::empty(), offset),
                        Ok(c) => if d + c == 0 || start + c > input.len() {
                            (Seq::empty(), offset)
                        } else {
                            let next = self.more_items(input, start + c, count + 1);
                            (seq![start] + next.0, next.1)
                        },
                    }
                },
            }
        }
    }

    /// Start positions of the items parsed from `input`, and where the
    /// last one ends.
    pub open spec fn items(&self, input: Seq<char>) -> (Seq<nat>, nat) {
        if self.empty_bounds() {
            (Seq::empty(), 0)
        } else {
            match self.parser.outcome(input) {
                Err(_) => (Seq::empty(), 0),
                Ok(c) => if c > input.len() {
                    (Seq::empty(), 0)
                } else {
                    let next = self.more_items(input, c, 1);
                    (seq![0nat] + next.0, next.1)
                },
            }
        }
    }

    fn phrase(&self, e: &String) -> (r: String)
        ensures
            r@ == many_phrase(self.min, self.max, e@),
    {
        let mut s = String::new();
        match (self.min, self.max) {
            (None, None) => {
                s.append("any number of ");
            },
            (Some(min), None) => {
                push_nat(&mut s, min as u128);
                s.append(" or more ");
            },
            (None, Some(max)) => {
                s.append("up to ");
                push_nat(&mut s, max as u128);
                s.append(" ");
            },
            (Some(min), Some(max)) => {
                s.append("between ");
                push_nat(&mut s, min as u128);
                s.append(" and ");
                push_nat(&mut s, max as u128);
                s.append(" ");
            },
        }
        s.append(e.as_str());
        assert(s@ =~= many_phrase(self.min, self.max, e@));
        s
    }
}

impl<T, TP> Parser<Vec<T>> for Many<T, TP> where TP: Parser<T> {
    open spec fn wf(&self) -> bool {
        self.parser.wf()
    }

    open spec fn outcome(&self, input: Seq<char>) -> Result<nat, ParseFailure> {
        let (starts, end) = self.items(input);
        if !self.empty_bounds() && self.min is Some && starts.len() < self.min->0 {
            Err(failure_with(count_message(self.min->0 as nat, starts.len()), self.expects()))
        } else {
            Ok(end)
        }
    }

    open spec fn produces(&self, input: Seq<char>, value: Vec<T>) -> bool {
        let starts = self.items(input).0;
        &&& value@.len() == starts.len()
        &&& forall|i: int|
            0 <= i < starts.len() ==> self.parser.produces(input.skip(starts[i] as int), #[trigger] value@[i])
    }

    open spec fn expects(&self) -> Seq<Seq<char>> {
        self.parser.expects().map_values(|e: Seq<char>| many_phrase(self.min, self.max, e))
    }

    open spec fn grammar(&self) -> SpecModel {
        SpecModel::Many { spec: Box::new(self.parser.grammar()), min: self.min, max: self.max, delim: self.delim@ }
    }

    fn parse<'a>(&self, input: &'a str) -> (r: Result<Output<'a, Vec<T>>, ParseError>) {
        let ghost s = input@;
        let il = input.unicode_len();
        let mut parsed: Vec<T> = Vec::new();
        if let Some(max) = self.max {
            let min = match self.min {
                Some(m) => m,
                None => 0,
            };
            if max == 0 || max < min {
                let (head, rest) = split_chars(input, 0);
                return Ok(Output { value: parsed, consumed: head, remaining: rest });
            }
        }
        let mut offset: usize = 0;
        let ghost mut starts: Seq<nat> = Seq::empty();
        match self.parser.parse(input) {
            Ok(o) => {
                parsed.push(o.value);
                offset = o.consumed.unicode_len();
                proof {
                    starts = seq![0nat];
                    assert(s.skip(0) =~= s);
                }
            },
            Err(_) => {},
        }
        if parsed.len() == 1 {
            loop
                invariant_except_break
                    self.wf(),
                    s == input@,
                    il == s.len(),
                    !self.empty_bounds(),
                    offset <= il,
                    parsed@.len() == starts.len(),
                    parsed@.len() >= 1,
                    self.items(s) == ({
                        let next = self.more_items(s, offset as nat, parsed@.len() as nat);
                        (starts + next.0, next.1)
                    }),
                    forall|i: int|
                        0 <= i < starts.len() ==> self.parser.produces(s.skip(starts[i] as int), #[trigger] parsed@[i]),
                ensures
                    offset <= il,
                    parsed@.len() == starts.len(),
                    self.items(s) == (starts, offset as nat),
                    forall|i: int|
                        0 <= i < starts.len() ==> self.parser.produces(s.skip(starts[i] as int), #[trigger] parsed@[i]),
                decreases il - offset,
            {
                let ghost count = parsed@.len() as nat;
                if let Some(max) = self.max {
                    if parsed.len() >= max {
                        assert(starts + Seq::<nat>::empty() =~= starts);
                        break;
                    }
                }
                let rest = crate::text::slice(input, offset, il);
                assert(rest@ =~= s.skip(offset as int));
                let d = match delim_len_at(rest, self.delim.as_str()) {
                    Some(d) => d,
                    None => {
                        assert(starts + Seq::<nat>::empty() =~= starts);
                        break;
                    },
                };
                let start = offset + d;
                let item_input = crate::text::slice(input, start, il);
                assert(item_input@ =~= s.skip(start as int));
                match self.parser.parse(item_input) {
                    Ok(o) => {
                        let c = o.consumed.unicode_len();
                        if d + c == 0 {
                            assert(starts + Seq::<nat>::empty() =~= starts);
                            break;
                        }
                        let ghost next = self.more_items(s, (start + c) as nat, count + 1);
                        assert(self.more_items(s, offset as nat, count) == (seq![start as nat] + next.0, next.1));
                        parsed.push(o.value);
                        proof {
                            let old_starts = starts;
                            starts = starts.push(start as nat);
                            assert(old_starts + (seq![start as nat] + next.0) =~= starts + next.0);
                            assert forall|i: int|
                                0 <= i < starts.len() implies self.parser.produces(
                                s.skip(starts[i] as int),
                                #[trigger] parsed@[i],
                            ) by {
                                if i < old_starts.len() {
                                    assert(starts[i] == old_starts[i]);
                                }
                            }
                        }
                        offset = start + c;
                    },
                    Err(_) => {
                        assert(starts + Seq::<nat>::empty() =~= starts);
                        break;
                    },
                }
            }
        } else {
            assert(self.items(s) == (starts, 0nat));
        }
        if let Some(min) = self.min {
            if parsed.len() < min {
                let mut m = String::from_str("expected at least ");
                push_nat(&mut m, min as u128);
                m.append(" items but could only parse ");
                push_nat(&mut m, parsed.len() as u128);
                assert(m@ =~= count_message(min as nat, parsed@.len() as nat));
                return fail_with(m, self.expected());
            }
        }
        let (head, rest) = split_chars(input, offset);
        Ok(Output { value: parsed, consumed: head, remaining: rest })
    }

    fn expected(&self) -> (r: Vec<String>) {
        let inner = self.parser.expected();
        let mut r: Vec<String> = Vec::new();
        let mut i: usize = 0;
        while i < inner.len()
            invariant
                i <= inner@.len(),
                texts(r@) =~= texts(inner@).map_values(|e: Seq<char>| many_phrase(self.min, self.max, e)).take(
                    i as int,
                ),
            decreases inner@.len() - i,
        {
            let s = self.phrase(&inner[i]);
            let ghost prev = r@;
            r.push(s);
            proof {
                let all = texts(inner@).map_values(|e: Seq<char>| many_phrase(self.min, self.max, e));
                assert(texts(r@) =~= texts(prev).push(s@));
                assert(all.take(i + 1) =~= all.take(i as int).push(all[i as int]));
            }
            i = i + 1;
        }
        r
    }

    fn to_spec(&self) -> (r: Spec) {
        Spec::Many { spec: Box::new(self.parser.to_spec()), min: self.min, max: self.max, delim: self.delim.clone() }
    }
}

/// A value that an `Enum` offers: it has a text form, and can be duplicated.
pub trait EnumValue: Sized {
    spec fn text(&self) -> Seq<char>;

    fn to_text(&self) -> (r: String)
        ensures
            r@ == self.text(),
    ;

    fn duplicate(&self) -> (r: Self)
        ensures
            r == *self,
    ;
}

impl EnumValue for String {
    open spec fn text(&self) -> Seq<char> {
        self@
    }

    fn to_text(&self) -> (r: String) {
        self.clone()
    }

    fn duplicate(&self) -> (r: Self) {
        self.clone()
    }
}

impl<'a> EnumValue for &'a str {
    open spec fn text(&self) -> Seq<char> {
        (*self)@
    }

    fn to_text(&self) -> (r: String) {
        (*self).to_owned()
    }

    fn duplicate(&self) -> (r: Self) {
        *self
    }
}

/// Whether candidate `i` may win: it matched, and matched in full where an
/// exact match is required.
pub open spec fn eligible(input_len: nat, lens: Seq<nat>, hits: Seq<bool>, exact: bool, i: int) -> bool {
    hits[i] && (!exact || lens[i] <= input_len)
}

/// Whether candidate `i` is an eligible match of its whole text.
pub open spec fn full_hit(input_len: nat, lens: Seq<nat>, hits: Seq<bool>, exact: bool, i: int) -> bool {
    eligible(input_len, lens, hits, exact, i) && lens[i] <= input_len
}

/// Whether one of the first `n` candidates is a full match.
pub open spec fn any_full(input_len: nat, lens: Seq<nat>, hits: Seq<bool>, exact: bool, n: nat) -> bool
    decreases n,
{
    if n == 0 {
        false
    } else {
        any_full(input_len, lens, hits, exact, (n - 1) as nat) || full_hit(
            input_len,
            lens,
            hits,
            exact,
            n - 1,
        )
    }
}

/// The length of the longest full match among the first `n` candidates.
pub open spec fn longest_full(input_len: nat, lens: Seq<nat>, hits: Seq<bool>, exact: bool, n: nat) -> nat
    decreases n,
{
    if n == 0 {
        0
    } else {
        let b = longest_full(input_len, lens, hits, exact, (n - 1) as nat);
        if full_hit(input_len, lens, hits, exact, n - 1) && lens[n - 1] > b {
            lens[n - 1]
        } else {
            b
        }
    }
}

/// Whether candidate `i` wins: where a full match exists, the longest full
/// matches win; otherwise every eligible candidate does.
pub open spec fn wins(input_len: nat, lens: Seq<nat>, hits: Seq<bool>, exact: bool, i: int) -> bool {
    let n = lens.len();
    if any_full(input_len, lens, hits, exact, n) {
        full_hit(input_len, lens, hits, exact, i) && lens[i] == longest_full(input_len, lens, hits, exact, n)
    } else {
        eligible(input_len, lens, hits, exact, i)
    }
}

/// The winning candidates among the first `n`, in order.
pub open spec fn winners(input_len: nat, lens: Seq<nat>, hits: Seq<bool>, exact: bool, n: nat) -> Seq<usize>
    decreases n,
{
    if n == 0 {
        Seq::empty()
    } else {
        let w = winners(input_len, lens, hits, exact, (n - 1) as nat);
        if wins(input_len, lens, hits, exact, n - 1) {
            w.push((n - 1) as usize)
        } else {
            w
        }
    }
}

pub proof fn lemma_winners_bound(input_len: nat, lens: Seq<nat>, hits: Seq<bool>, exact: bool, n: nat)
    requires
        n <= usize::MAX,
    ensures
        forall|q: int|
            0 <= q < winners(input_len, lens, hits, exact, n).len() ==> (#[trigger] winners(
                input_len,
                lens,
                hits,
                exact,
                n,
            )[q]) < n,
    decreases n,
{
    if n > 0 {
        let prev = winners(input_len, lens, hits, exact, (n - 1) as nat);
        lemma_winners_bound(input_len, lens, hits, exact, (n - 1) as nat);
        let w = winners(input_len, lens, hits, exact, n);
        assert forall|q: int| 0 <= q < w.len() implies #[trigger] w[q] < n by {
            if q < prev.len() {
                assert(w[q] == prev[q]);
            } else {
                assert(w[q] == (n - 1) as usize);
            }
        }
    }
}

pub open spec fn nat_lens(lens: Seq<usize>) -> Seq<nat> {
    lens.map_values(|x: usize| x as nat)
}

/// Selects the winning candidates given the input length, each candidate's
/// length, and whether each candidate matched the input.
pub fn pick_candidates(input_len: usize, lens: &Vec<usize>, hits: &Vec<bool>, exact: bool) -> (r: Vec<usize>)
    requires
        lens@.len() == hits@.len(),
    ensures
        r@ == winners(input_len as nat, nat_lens(lens@), hits@, exact, lens@.len() as nat),
        forall|q: int| 0 <= q < r@.len() ==> #[trigger] r@[q] < lens@.len(),
{
    let ghost ls = nat_lens(lens@);
    let n = lens.len();
    let mut found = false;
    let mut best: usize = 0;
    let mut i: usize = 0;
    while i < n
        invariant
            n == lens@.len(),
            n == hits@.len(),
            ls == nat_lens(lens@),
            i <= n,
            found == any_full(input_len as nat, ls, hits@, exact, i as nat),
            best == longest_full(input_len as nat, ls, hits@, exact, i as nat),
        decreases n - i,
    {
        if hits[i] && lens[i] <= input_len {
            found = true;
            if lens[i] > best {
                best = lens[i];
            }
        }
        i = i + 1;
    }
    let mut r: Vec<usize> = Vec::new();
    let mut k: usize = 0;
    while k < n
        invariant
            n == lens@.len(),
            n == hits@.len(),
            ls == nat_lens(lens@),
            k <= n,
            found == any_full(input_len as nat, ls, hits@, exact, n as nat),
            best == longest_full(input_len as nat, ls, hits@, exact, n as nat),
            r@ == winners(input_len as nat, ls, hits@, exact, k as nat),
        decreases n - k,
    {
        let eligible = hits[k] && (!exact || lens[k] <= input_len);
        let win = if found {
            eligible && lens[k] <= input_len && lens[k] == best
        } else {
            eligible
        };
        if win {
            r.push(k);
        }
        k = k + 1;
    }
    proof {
        lemma_winners_bound(input_len as nat, ls, hits@, exact, n as nat);
    }
    r
}

/// The text forms of the candidates.
pub open spec fn value_texts<T: EnumValue>(values: Seq<T>) -> Seq<Seq<char>> {
    values.map_values(|v: T| v.text())
}

/// Whether candidate text `i` matches the input: it is the first candidate
/// with its text, and the input and the text agree case-insensitively over
/// the shorter of the two lengths.
pub open spec fn enum_hit(input: Seq<char>, tx: Seq<Seq<char>>, i: int) -> bool {
    let cl = if input.len() < tx[i].len() {
        input.len()
    } else {
        tx[i].len()
    };
    !tx.take(i).contains(tx[i]) && caseless_eq(input.take(cl as int), tx[i].take(cl as int))
}

/// Matches one of a list of values by case-insensitive prefix.
pub struct Enum<T> where T: EnumValue {
    pub values: Vec<T>,
    pub exact: bool,
}

impl<T> Enum<T> where T: EnumValue {
    /// Candidates must be matched in full.
    pub fn exact(values: Vec<T>) -> (r: Self)
        ensures
            r.values == values,
            r.exact,
    {
        Enum { values, exact: true }
    }

    /// Any unambiguous prefix of a candidate matches it.
    pub fn partial(values: Vec<T>) -> (r: Self)
        ensures
            r.values == values,
            !r.exact,
    {
        Enum { values, exact: false }
    }

    /// The winning candidates for `input`.
    pub open spec fn winning(&self, input: Seq<char>) -> Seq<usize> {
        let tx = value_texts(self.values@);
        let lens = Seq::new(tx.len(), |i: int| tx[i].len());
        let hits = Seq::new(tx.len(), |i: int| enum_hit(input, tx, i));
        winners(input.len(), lens, hits, self.exact, tx.len())
    }
}

/// Message for an input that matches several candidates.
pub open spec fn ambiguity_message(names: Seq<Seq<char>>) -> Seq<char> {
    "matched "@ + join_and(names) + ", more input is required to uniquely match one"@
}

impl<T> Parser<T> for Enum<T> where T: EnumValue {
    open spec fn wf(&self) -> bool {
        true
    }

    open spec fn outcome(&self, input: Seq<char>) -> Result<nat, ParseFailure> {
        let tx = value_texts(self.values@);
        let w = self.winning(input);
        if w.len() == 1 {
            let l = tx[w[0] as int].len();
            Ok(
                if input.len() < l {
                    input.len()
                } else {
                    l
                },
            )
        } else if w.len() == 0 {
            Err(plain_failure(tx))
        } else {
            Err(failure_with(ambiguity_message(w.map_values(|i: usize| tx[i as int])), tx))
        }
    }

    open spec fn produces(&self, input: Seq<char>, value: T) -> bool {
        let w = self.winning(input);
        w.len() == 1 && value == self.values@[w[0] as int]
    }

    open spec fn expects(&self) -> Seq<Seq<char>> {
        value_texts(self.values@)
    }

    open spec fn grammar(&self) -> SpecModel {
        SpecModel::Enum { values: value_texts(self.values@), exact: self.exact }
    }

    fn parse<'a>(&self, input: &'a str) -> (r: Result<Output<'a, T>, ParseError>) {
        let ghost tx = value_texts(self.values@);
        let il = input.unicode_len();
        let n = self.values.len();
        let mut seen: Vec<String> = Vec::new();
        let mut lens: Vec<usize> = Vec::new();
        let mut hits: Vec<bool> = Vec::new();
        let mut i: usize = 0;
        while i < n
            invariant
                n == self.values@.len(),
                tx == value_texts(self.values@),
                i <= n,
                il == input@.len(),
                texts(seen@) =~= tx.take(i as int),
                lens@.len() == i,
                hits@.len() == i,
                forall|j: int| 0 <= j < i ==> (#[trigger] lens@[j]) as nat == tx[j].len(),
                forall|j: int| 0 <= j < i ==> (#[trigger] hits@[j]) == enum_hit(input@, tx, j),
            decreases n - i,
        {
            let t = self.values[i].to_text();
            let tl = t.as_str().unicode_len();
            let fresh = !contains_text(&seen, &t);
            let cl = if il < tl {
                il
            } else {
                tl
            };
            let hit = fresh && unicase_eq(
                crate::text::slice(input, 0, cl),
                crate::text::slice(t.as_str(), 0, cl),
            );
            proof {
                assert(input@.subrange(0, cl as int) =~= input@.take(cl as int));
                assert(t@.subrange(0, cl as int) =~= t@.take(cl as int));
                assert(t@ == tx[i as int]);
            }
            lens.push(tl);
            hits.push(hit);
            let ghost prev = seen@;
            seen.push(t);
            proof {
                assert(texts(seen@) =~= texts(prev).push(t@));
                assert(tx.take(i + 1) =~= tx.take(i as int).push(tx[i as int]));
            }
            i = i + 1;
        }
        proof {
            let ls = Seq::new(tx.len(), |i: int| tx[i].len());
            let hs = Seq::new(tx.len(), |i: int| enum_hit(input@, tx, i));
            assert(nat_lens(lens@) =~= ls);
            assert(hits@ =~= hs);
            assert(seen@.len() == n);
            assert(tx.take(n as int) =~= tx);
        }
        let w = pick_candidates(il, &lens, &hits, self.exact);
        if w.len() == 1 {
            let k = w[0];
            let l = lens[k];
            let cl = if il < l {
                il
            } else {
                l
            };
            let (head, rest) = split_chars(input, cl);
            return Ok(Output { value: self.values[k].duplicate(), consumed: head, remaining: rest });
        }
        let expected = self.expected();
        if w.len() == 0 {
            return fail_plain(expected);
        }
        let mut names: Vec<String> = Vec::new();
        let mut j: usize = 0;
        while j < w.len()
            invariant
                j <= w@.len(),
                n == self.values@.len(),
                tx == value_texts(self.values@),
                seen@.len() == n,
                texts(seen@) == tx,
                forall|q: int| 0 <= q < w@.len() ==> w@[q] < n,
                texts(names@) =~= w@.map_values(|i: usize| tx[i as int]).take(j as int),
            decreases w@.len() - j,
        {
            let ghost prev = names@;
            names.push(seen[w[j]].clone());
            proof {
                assert(seen@[w@[j as int] as int]@ == tx[w@[j as int] as int]);
                assert(texts(names@) =~= texts(prev).push(tx[w@[j as int] as int]));
            }
            j = j + 1;
        }
        let mut m = String::from_str("matched ");
        let joined = comma_list_and(names.as_slice());
        m.append(joined.as_str());
        m.append(", more input is required to uniquely match one");
        proof {
            assert(w@.map_values(|i: usize| tx[i as int]).take(j as int) =~= w@.map_values(|i: usize| tx[i as int]));
            assert(m@ =~= ambiguity_message(w@.map_values(|i: usize| tx[i as int])));
        }
        fail_with(m, expected)
    }

    fn expected(&self) -> (r: Vec<String>) {
        let mut r: Vec<String> = Vec::new();
        let mut i: usize = 0;
        while i < self.values.len()
            invariant
                i <= self.values@.len(),
                texts(r@) =~= value_texts(self.values@).take(i as int),
            decreases self.values@.len() - i,
        {
            let ghost prev = r@;
            let t = self.values[i].to_text();
            r.push(t);
            proof {
                assert(texts(r@) =~= texts(prev).push(t@));
                assert(value_texts(self.values@).take(i + 1) =~= value_texts(self.values@).take(i as int).push(
                    t@,
                ));
            }
            i = i + 1;
        }
        assert(value_texts(self.values@).take(i as int) =~= value_texts(self.values@));
        r
    }

    fn to_spec(&self) -> (r: Spec) {
        Spec::Enum { values: self.expected(), exact: self.exact }
    }
}

} // verus!
