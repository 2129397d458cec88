//! Named command grammars: a registry of grammar nodes, each with a kind,
//! an occurrence range and an optional description.
use vstd::prelude::*;
use vstd::string::*;

verus! {

/// The kind of a named grammar node.
#[derive(Debug, PartialEq)]
pub enum Kind {
    Str,
    Int { min: Option<i32>, max: Option<i32> },
    Token(String),
    Ref(String),
    Enum(Vec<String>),
    OneOf(Vec<Spec>),
    Chain(Vec<Spec>),
}

/// A grammar node: its kind, how many times it occurs, and a description.
#[derive(Debug, PartialEq)]
pub struct Spec {
    pub kind: Kind,
    pub min: usize,
    pub max: Option<usize>,
    pub description: Option<String>,
}

impl Kind {
    /// A node of this kind that occurs exactly once, without description.
    pub fn spec(self) -> (r: Spec)
        ensures
            r.kind == self,
            r.min == 1,
            r.max == Some(1usize),
            r.description is None,
    {
        Spec { kind: self, min: 1, max: Some(1), description: None }
    }

    pub fn token(t: &str) -> (r: Self)
        ensures
            r matches Kind::Token(s) && s@ == t@,
    {
        Kind::Token(t.to_owned())
    }

    pub fn integer() -> (r: Self)
        ensures
            r == (Kind::Int { min: None, max: None }),
    {
        Kind::Int { min: None, max: None }
    }
}

impl From<Kind> for Spec {
    fn from(kind: Kind) -> (r: Spec) {
        kind.spec()
    }
}

impl vstd::std_specs::convert::FromSpecImpl<Kind> for Spec {
    open spec fn obeys_from_spec() -> bool {
        true
    }

    open spec fn from_spec(v: Kind) -> Spec {
        Spec { kind: v, min: 1, max: Some(1), description: None }
    }
}

impl Default for Spec {
    fn default() -> (r: Self)
        ensures
            r == (Spec { kind: Kind::Str, min: 1, max: Some(1), description: None }),
    {
        Spec { kind: Kind::Str, min: 1, max: Some(1), description: None }
    }
}

impl Spec {
    /// The same node with `description` attached.
    pub fn desc(self, description: &str) -> (r: Self)
        ensures
            r.kind == self.kind,
            r.min == self.min,
            r.max == self.max,
            r.description matches Some(d) && d@ == description@,
    {
        Spec { description: Some(description.to_owned()), ..self }
    }
}

/// The registry as a map from name to node; a later entry for a name
/// overrides an earlier one.
pub open spec fn entries_map(s: Seq<(String, Spec)>) -> Map<Seq<char>, Spec>
    decreases s.len(),
{
    if s.len() == 0 {
        Map::empty()
    } else {
        entries_map(s.drop_last()).insert(s.last().0@, s.last().1)
    }
}

/// A set of named grammar nodes and the name of the one to start from.
#[derive(Debug, PartialEq)]
pub struct Specs {
    pub entry: String,
    pub specs: Vec<(String, Spec)>,
}

impl View for Specs {
    type V = Map<Seq<char>, Spec>;

    open spec fn view(&self) -> Map<Seq<char>, Spec> {
        entries_map(self.specs@)
    }
}

impl Specs {
    /// An empty registry starting from `entry`.
    pub fn new(entry: &str) -> (r: Self)
        ensures
            r.entry@ == entry@,
            r@ == Map::<Seq<char>, Spec>::empty(),
    {
        Specs { entry: entry.to_owned(), specs: Vec::new() }
    }

    /// Registers `spec` under `name`, replacing any node of that name.
    pub fn register(&mut self, name: &str, spec: Spec)
        ensures
            final(self).entry == old(self).entry,
            final(self)@ == old(self)@.insert(name@, spec),
    {
        let ghost name_v = name@;
        let ghost spec_v = spec;
        self.specs.push((name.to_owned(), spec));
        proof {
            let s = final(self).specs@;
            assert(s.drop_last() =~= old(self).specs@);
        }
    }
}

} // verus!
