//! Splitting of template bytes into literal text and `{{tag}}` nodes.
use vstd::prelude::*;

verus! {

/// A piece of a template: literal text, or the name inside `{{` and `}}`.
#[derive(PartialEq, Debug)]
pub enum Node<'a> {
    Text(&'a [u8]),
    Tag(&'a [u8]),
}

/// The first position at or after `i` where `s` holds the two bytes `a b`.
pub open spec fn find_pair(s: Seq<u8>, a: u8, b: u8, i: nat) -> Option<nat>
    decreases s.len() - i,
{
    if i + 1 >= s.len() {
        None
    } else if s[i as int] == a && s[i + 1 as int] == b {
        Some(i)
    } else {
        find_pair(s, a, b, i + 1)
    }
}

pub proof fn lemma_find_pair_bounds(s: Seq<u8>, a: u8, b: u8, i: nat)
    ensures
        find_pair(s, a, b, i) matches Some(p) ==> i <= p && p + 1 < s.len(),
    decreases s.len() - i,
{
    if i + 1 < s.len() && !(s[i as int] == a && s[i + 1 as int] == b) {
        lemma_find_pair_bounds(s, a, b, i + 1);
    }
}

/// What `tag` yields on `s`: the tag name, and how many bytes it takes.
pub open spec fn tag_spec(s: Seq<u8>) -> Option<(Seq<u8>, nat)> {
    if s.len() >= 2 && s[0] == 123u8 && s[1] == 123u8 {
        match find_pair(s, 125u8, 125u8, 2) {
            Some(p) => Some((s.subrange(2, p as int), p + 2)),
            None => None,
        }
    } else {
        None
    }
}

/// What `text` yields on `s`: the bytes before the next `{{`.
pub open spec fn text_spec(s: Seq<u8>) -> Option<nat> {
    find_pair(s, 123u8, 123u8, 0)
}

fn find_pair_at(s: &[u8], a: u8, b: u8, from: usize) -> (r: Option<usize>)
    ensures
        match r {
            Some(p) => find_pair(s@, a, b, from as nat) == Some(p as nat) && from <= p && p + 1 < s@.len(),
            None => find_pair(s@, a, b, from as nat) is None,
        },
    decreases s@.len() - from,
{
    if from >= s.len() || from + 1 >= s.len() {
        return None;
    }
    if s[from] == a && s[from + 1] == b {
        return Some(from);
    }
    find_pair_at(s, a, b, from + 1)
}

/// A `{{name}}` tag at the start of `input`: what follows it, and the tag.
pub fn tag<'a>(input: &'a [u8]) -> (r: Option<(&'a [u8], Node<'a>)>)
    ensures
        match tag_spec(input@) {
            Some((name, n)) => n <= input@.len() && (r matches Some((rest, Node::Tag(t))) && t@ == name && rest@
                == input@.subrange(n as int, input@.len() as int)),
            None => r is None,
        },
{
    if input.len() < 2 || input[0] != 123u8 || input[1] != 123u8 {
        return None;
    }
    proof {
        lemma_find_pair_bounds(input@, 125u8, 125u8, 2);
    }
    match find_pair_at(input, 125u8, 125u8, 2) {
        Some(p) => {
            let (head, rest) = input.split_at(p + 2);
            let (open, _) = head.split_at(p);
            let (_, name) = open.split_at(2);
            assert(name@ =~= input@.subrange(2, p as int));
            proof {
                lemma_find_pair_bounds(input@, 125u8, 125u8, 2);
            }
            Some((rest, Node::Tag(name)))
        },
        None => None,
    }
}

/// The literal text before the next `{{` in `input`: what follows it, and
/// the text.
pub fn text<'a>(input: &'a [u8]) -> (r: Option<(&'a [u8], Node<'a>)>)
    ensures
        match text_spec(input@) {
            Some(p) => p <= input@.len() && (r matches Some((rest, Node::Text(t))) && t@ == input@.subrange(0, p as int)
                && rest@ == input@.subrange(p as int, input@.len() as int)),
            None => r is None,
        },
{
    match find_pair_at(input, 123u8, 123u8, 0) {
        Some(p) => {
            let (head, rest) = input.split_at(p);
            Some((rest, Node::Text(head)))
        },
        None => None,
    }
}

/// A node as a flag telling tags apart, and its bytes.
pub open spec fn node_view(n: Node) -> (bool, Seq<u8>) {
    match n {
        Node::Tag(t) => (true, t@),
        Node::Text(t) => (false, t@),
    }
}

/// The next node at the start of `s` and how many bytes it takes: a tag
/// where one stands, else text up to the next `{{`.
pub open spec fn next_node(s: Seq<u8>) -> Option<((bool, Seq<u8>), nat)> {
    match tag_spec(s) {
        Some((name, n)) => Some(((true, name), n)),
        None => match text_spec(s) {
            Some(p) => Some(((false, s.subrange(0, p as int)), p)),
            None => None,
        },
    }
}

/// The nodes that `parse` reads from `s`, and where it stops: it reads
/// nodes until none is there or one takes no bytes.
pub open spec fn parse_spec(s: Seq<u8>) -> (Seq<(bool, Seq<u8>)>, nat)
    decreases s.len(),
{
    match next_node(s) {
        Some((node, n)) => if n == 0 || n > s.len() {
            (Seq::empty(), 0)
        } else {
            let r = parse_spec(s.subrange(n as int, s.len() as int));
            (seq![node] + r.0, r.1 + n)
        },
        None => (Seq::empty(), 0),
    }
}

/// Splits `input` into nodes; returns what is left after the last one.
pub fn parse<'a>(input: &'a [u8]) -> (r: (&'a [u8], Vec<Node<'a>>))
    ensures
        r.1@.map_values(|n: Node<'a>| node_view(n)) == parse_spec(input@).0,
        r.0@ == input@.subrange(parse_spec(input@).1 as int, input@.len() as int),
{
    let mut nodes: Vec<Node<'a>> = Vec::new();
    let mut rest = input;
    let ghost consumed: nat = 0;
    assert(input@.subrange(0, input@.len() as int) =~= input@);
    loop
        invariant_except_break
            consumed <= input@.len(),
            rest@ == input@.subrange(consumed as int, input@.len() as int),
            parse_spec(input@) == ({
                let r = parse_spec(rest@);
                (nodes@.map_values(|n: Node<'a>| node_view(n)) + r.0, r.1 + consumed)
            }),
        ensures
            nodes@.map_values(|n: Node<'a>| node_view(n)) == parse_spec(input@).0,
            rest@ == input@.subrange(parse_spec(input@).1 as int, input@.len() as int),
        decreases rest@.len(),
    {
        let step = match tag(rest) {
            Some(x) => Some(x),
            None => text(rest),
        };
        match step {
            Some((next, node)) => {
                let n = rest.len() - next.len();
                if n == 0 {
                    assert(nodes@.map_values(|n: Node<'a>| node_view(n)) + Seq::empty() =~= nodes@.map_values(
                        |n: Node<'a>| node_view(n),
                    ));
                    break;
                }
                let ghost before = nodes@;
                proof {
                    assert(next@ =~= rest@.subrange(n as int, rest@.len() as int));
                    assert(next@ =~= input@.subrange(consumed + n, input@.len() as int));
                    consumed = (consumed + n) as nat;
                }
                nodes.push(node);
                proof {
                    let f = |n: Node<'a>| node_view(n);
                    assert(nodes@.map_values(f) =~= before.map_values(f).push(node_view(node)));
                    let r = parse_spec(next@);
                    assert(before.map_values(f) + (seq![node_view(node)] + r.0) =~= nodes@.map_values(f) + r.0);
                }
                rest = next;
            },
            None => {
                assert(nodes@.map_values(|n: Node<'a>| node_view(n)) + Seq::empty() =~= nodes@.map_values(
                    |n: Node<'a>| node_view(n),
                ));
                break;
            },
        }
    }
    (rest, nodes)
}

} // verus!
