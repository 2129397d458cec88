//! The grammar spec tree: a data-only description of what a parser accepts.
pub mod parser;
pub mod lemmas;
pub mod doc;

use vstd::prelude::*;
use vstd::string::*;
use std::collections::HashMap;
use std::collections::hash_map::DefaultHasher;
use std::hash::Hasher;
use vstd::std_specs::hash::DefaultHasherAdditionalSpecFns;
use vstd::std_specs::iter::IteratorSpec;
use crate::text::{int_text, nat_text, push_int, push_nat};

verus! {

broadcast use vstd::std_specs::vec::axiom_vec_index_decreases;

/// Identifier of a spec node, derived from the node's content.
pub type SpecID = u64;

/// A node of the grammar spec tree.
#[derive(Debug, PartialEq)]
#[allow(inconsistent_fields)]
pub enum Spec {
    Int { min: Option<i32>, max: Option<i32> },
    Token(String),
    Enum { values: Vec<String>, exact: bool },
    OneOf(Vec<Spec>),
    Chain(Vec<Spec>),
    Many { spec: Box<Spec>, min: Option<usize>, max: Option<usize>, delim: String },
    Opt(Box<Spec>),
    Doc { name: String, desc: Option<String>, spec: Box<Spec> },
    Player,
    Space,
}

/// The mathematical content of a `Spec`.
#[allow(inconsistent_fields)]
pub enum SpecModel {
    Int { min: Option<i32>, max: Option<i32> },
    Token(Seq<char>),
    Enum { values: Seq<Seq<char>>, exact: bool },
    OneOf(Seq<SpecModel>),
    Chain(Seq<SpecModel>),
    Many { spec: Box<SpecModel>, min: Option<usize>, max: Option<usize>, delim: Seq<char> },
    Opt(Box<SpecModel>),
    Doc { name: Seq<char>, desc: Option<Seq<char>>, spec: Box<SpecModel> },
    Player,
    Space,
}

/// The views of a sequence of texts.
pub open spec fn texts(v: Seq<String>) -> Seq<Seq<char>> {
    v.map_values(|s: String| s@)
}

pub open spec fn opt_text(o: Option<String>) -> Option<Seq<char>> {
    match o {
        Some(s) => Some(s@),
        None => None,
    }
}

impl Spec {
    pub open spec fn model(&self) -> SpecModel
        decreases self,
    {
        match self {
            Spec::Int { min, max } => SpecModel::Int { min: *min, max: *max },
            Spec::Token(t) => SpecModel::Token(t@),
            Spec::Enum { values, exact } => SpecModel::Enum { values: texts(values@), exact: *exact },
            Spec::OneOf(v) => SpecModel::OneOf(
                Seq::new(v.len() as nat, |i: int| if 0 <= i < v.len() { v[i].model() } else { SpecModel::Space }),
            ),
            Spec::Chain(v) => SpecModel::Chain(
                Seq::new(v.len() as nat, |i: int| if 0 <= i < v.len() { v[i].model() } else { SpecModel::Space }),
            ),
            Spec::Many { spec, min, max, delim } => SpecModel::Many {
                spec: Box::new(spec.model()),
                min: *min,
                max: *max,
                delim: delim@,
            },
            Spec::Opt(s) => SpecModel::Opt(Box::new(s.model())),
            Spec::Doc { name, desc, spec } => SpecModel::Doc {
                name: name@,
                desc: opt_text(*desc),
                spec: Box::new(spec.model()),
            },
            Spec::Player => SpecModel::Player,
            Spec::Space => SpecModel::Space,
        }
    }
}

impl View for Spec {
    type V = SpecModel;

    open spec fn view(&self) -> SpecModel {
        self.model()
    }
}

/// A text, prefixed by its length so that the encoding is self-delimiting.
pub open spec fn enc_text(t: Seq<char>) -> Seq<char> {
    nat_text(t.len()) + ":"@ + t
}

pub open spec fn enc_opt_text(t: Option<Seq<char>>) -> Seq<char> {
    match t {
        Some(x) => "+"@ + enc_text(x),
        None => "-"@,
    }
}

pub open spec fn enc_opt_int(v: Option<i32>) -> Seq<char> {
    match v {
        Some(x) => "+"@ + int_text(x as int) + ";"@,
        None => "-"@,
    }
}

pub open spec fn enc_opt_nat(v: Option<usize>) -> Seq<char> {
    match v {
        Some(x) => "+"@ + nat_text(x as nat) + ";"@,
        None => "-"@,
    }
}

/// Concatenation of a sequence of texts.
pub open spec fn join_all(ss: Seq<Seq<char>>) -> Seq<char>
    decreases ss.len(),
{
    if ss.len() == 0 {
        Seq::empty()
    } else {
        join_all(ss.drop_last()) + ss.last()
    }
}

/// A canonical text encoding of a spec tree's content.
pub open spec fn encoding(m: SpecModel) -> Seq<char>
    decreases m,
{
    match m {
        SpecModel::Int { min, max } => "I"@ + enc_opt_int(min) + enc_opt_int(max),
        SpecModel::Token(t) => "T"@ + enc_text(t),
        SpecModel::Enum { values, exact } => "E"@ + (if exact {
            "1"@
        } else {
            "0"@
        }) + nat_text(values.len()) + ";"@ + join_all(values.map_values(|v: Seq<char>| enc_text(v))),
        SpecModel::OneOf(v) => "O"@ + nat_text(v.len()) + ";"@ + encoding_list(v),
        SpecModel::Chain(v) => "C"@ + nat_text(v.len()) + ";"@ + encoding_list(v),
        SpecModel::Many { spec, min, max, delim } => "M"@ + enc_opt_nat(min) + enc_opt_nat(max) + enc_text(delim)
            + encoding(*spec),
        SpecModel::Opt(spec) => "P"@ + encoding(*spec),
        SpecModel::Doc { name, desc, spec } => "D"@ + enc_text(name) + enc_opt_text(desc) + encoding(*spec),
        SpecModel::Player => "L"@,
        SpecModel::Space => "S"@,
    }
}

/// The encodings of a sequence of spec trees, concatenated.
pub open spec fn encoding_list(v: Seq<SpecModel>) -> Seq<char>
    decreases v,
{
    if v.len() == 0 {
        Seq::empty()
    } else {
        encoding_list(v.drop_last()) + encoding(v.last())
    }
}

/// The identifier of a spec tree: the default hasher's digest of the UTF-8
/// bytes of its encoding, so that equal content gives equal identifiers.
pub open spec fn content_id(m: SpecModel) -> SpecID {
    DefaultHasher::spec_finish(seq![vstd::utf8::encode_utf8(encoding(m))])
}

fn push_text(out: &mut String, t: &String)
    ensures
        final(out)@ == old(out)@ + enc_text(t@),
{
    push_nat(out, t.as_str().unicode_len() as u128);
    out.append(":");
    out.append(t.as_str());
    assert(final(out)@ =~= old(out)@ + enc_text(t@));
}

fn push_opt_int(out: &mut String, v: Option<i32>)
    ensures
        final(out)@ == old(out)@ + enc_opt_int(v),
{
    match v {
        Some(x) => {
            out.append("+");
            push_int(out, x as i64);
            out.append(";");
        },
        None => {
            out.append("-");
        },
    }
    assert(final(out)@ =~= old(out)@ + enc_opt_int(v));
}

fn push_opt_nat(out: &mut String, v: Option<usize>)
    ensures
        final(out)@ == old(out)@ + enc_opt_nat(v),
{
    match v {
        Some(x) => {
            out.append("+");
            push_nat(out, x as u128);
            out.append(";");
        },
        None => {
            out.append("-");
        },
    }
    assert(final(out)@ =~= old(out)@ + enc_opt_nat(v));
}

impl Spec {
    fn push_children(out: &mut String, v: &Vec<Spec>)
        ensures
            final(out)@ == old(out)@ + nat_text(v@.len() as nat) + ";"@ + encoding_list(
                Seq::new(v@.len(), |i: int| v@[i]@),
            ),
        decreases v,
    {
        push_nat(out, v.len() as u128);
        out.append(";");
        let ghost start = out@;
        let ghost all = Seq::new(v@.len(), |i: int| v@[i]@);
        let mut i: usize = 0;
        while i < v.len()
            invariant
                i <= v@.len(),
                all == Seq::new(v@.len(), |i: int| v@[i]@),
                out@ == start + encoding_list(all.take(i as int)),
            decreases v@.len() - i,
        {
            v[i].encode_into(out);
            assert(all.take(i + 1).drop_last() =~= all.take(i as int));
            i = i + 1;
        }
        assert(all.take(i as int) =~= all);
    }

    /// Appends the canonical encoding of this tree to `out`.
    pub fn encode_into(&self, out: &mut String)
        ensures
            final(out)@ == old(out)@ + encoding(self@),
        decreases self,
    {
        match self {
            Spec::Int { min, max } => {
                out.append("I");
                push_opt_int(out, *min);
                push_opt_int(out, *max);
            },
            Spec::Token(t) => {
                out.append("T");
                push_text(out, t);
            },
            Spec::Enum { values, exact } => {
                out.append("E");
                if *exact {
                    out.append("1");
                } else {
                    out.append("0");
                }
                push_nat(out, values.len() as u128);
                out.append(";");
                let ghost start = out@;
                let ghost all = texts(values@).map_values(|v: Seq<char>| enc_text(v));
                let mut i: usize = 0;
                while i < values.len()
                    invariant
                        i <= values@.len(),
                        all == texts(values@).map_values(|v: Seq<char>| enc_text(v)),
                        out@ == start + join_all(all.take(i as int)),
                    decreases values@.len() - i,
                {
                    push_text(out, &values[i]);
                    assert(all.take(i + 1).drop_last() =~= all.take(i as int));
                    i = i + 1;
                }
                assert(all.take(i as int) =~= all);
                assert(out@ =~= old(out)@ + encoding(self@));
            },
            Spec::OneOf(v) => {
                out.append("O");
                Spec::push_children(out, v);
                proof {
                    let mm = self@->OneOf_0;
                    assert(self@ == SpecModel::OneOf(mm));
                    assert(mm.len() == v@.len());
                    let a = Seq::new(v@.len(), |i: int| v@[i]@);
                    assert(a =~= mm);
                    assert(out@ =~= old(out)@ + encoding(self@));
                }
            },
            Spec::Chain(v) => {
                out.append("C");
                Spec::push_children(out, v);
                proof {
                    let mm = self@->Chain_0;
                    assert(self@ == SpecModel::Chain(mm));
                    assert(mm.len() == v@.len());
                    let a = Seq::new(v@.len(), |i: int| v@[i]@);
                    assert(a =~= mm);
                    assert(out@ =~= old(out)@ + encoding(self@));
                }
            },
            Spec::Many { spec, min, max, delim } => {
                out.append("M");
                push_opt_nat(out, *min);
                push_opt_nat(out, *max);
                push_text(out, delim);
                spec.encode_into(out);
            },
            Spec::Opt(spec) => {
                out.append("P");
                spec.encode_into(out);
            },
            Spec::Doc { name, desc, spec } => {
                out.append("D");
                push_text(out, name);
                match desc {
                    Some(d) => {
                        out.append("+");
                        push_text(out, d);
                    },
                    None => {
                        out.append("-");
                    },
                }
                spec.encode_into(out);
                assert(out@ =~= old(out)@ + encoding(self@));
            },
            Spec::Player => {
                out.append("L");
            },
            Spec::Space => {
                out.append("S");
            },
        }
        assert(final(out)@ =~= old(out)@ + encoding(self@));
    }

    /// The identifier of this tree, derived from its content alone.
    pub fn id(&self) -> (r: SpecID)
        ensures
            r == content_id(self@),
    {
        let mut text = String::new();
        self.encode_into(&mut text);
        assert(text@ =~= encoding(self@));
        let mut hasher = DefaultHasher::new();
        hasher.write(text.as_str().as_bytes());
        hasher.finish()
    }
}

/// A pool of spec nodes keyed by identifier, with the entry point.
#[derive(Debug, PartialEq)]
pub struct SpecStore {
    pub entry: SpecID,
    pub specs: HashMap<SpecID, Spec>,
}

impl SpecStore {
    /// A store holding `spec` alone, as its entry point.
    pub fn from_spec(spec: Spec) -> (r: Self)
        ensures
            r.entry == content_id(spec@),
            r.specs@ == Map::<SpecID, Spec>::empty().insert(r.entry, spec),
    {
        broadcast use vstd::std_specs::hash::group_hash_axioms;

        let id = spec.id();
        let mut specs: HashMap<SpecID, Spec> = HashMap::new();
        specs.insert(id, spec);
        SpecStore { entry: id, specs }
    }

    /// Adds the nodes of `other`; where both hold an identifier, `other`'s
    /// node is kept. The entry point stays.
    pub fn extend(&mut self, other: SpecStore)
        ensures
            final(self).entry == old(self).entry,
            final(self).specs@ == old(self).specs@.union_prefer_right(other.specs@),
    {
        broadcast use vstd::std_specs::hash::group_hash_axioms;

        let mut others = other.specs;
        let ghost orig = others@;
        let mut ks: Vec<SpecID> = Vec::new();
        let ghost all = vstd::std_specs::hash::spec_keys_iter(&others).remaining().unref();
        proof {
            vstd::std_specs::hash::axiom_spec_keys_iter(&others);
        }
        for k in it: others.keys()
            invariant
                it.seq().unref() == all,
                ks@ == all.take(it.index()),
        {
            ks.push(*k);
            assert(all.take(it.index() + 1) =~= all.take(it.index()).push(*k));
        }
        proof {
            assert(all.take(all.len() as int) =~= all);
            assert(ks@.to_set() =~= orig.dom());
            assert(ks@.no_duplicates());
        }
        let ghost start = self.specs@;
        let mut i: usize = 0;
        while i < ks.len()
            invariant
                i <= ks@.len(),
                ks@.to_set() == orig.dom(),
                ks@.no_duplicates(),
                self.entry == old(self).entry,
                others@ == orig.remove_keys(ks@.take(i as int).to_set()),
                self.specs@ == start.union_prefer_right(orig.restrict(ks@.take(i as int).to_set())),
            decreases ks@.len() - i,
        {
            let k = ks[i];
            assert(ks@.take(i + 1).to_set() =~= ks@.take(i as int).to_set().insert(k)) by {
                assert(ks@.take(i + 1) =~= ks@.take(i as int).push(k));
                ks@.take(i as int).lemma_push_to_set_commute(k);
            }
            assert(!ks@.take(i as int).contains(k));
            assert(orig.dom().contains(k)) by {
                assert(ks@.contains(k));
            }
            match others.remove(&k) {
                Some(v) => {
                    self.specs.insert(k, v);
                },
                None => {},
            }
            assert(others@ =~= orig.remove_keys(ks@.take(i + 1).to_set()));
            assert(self.specs@ =~= start.union_prefer_right(orig.restrict(ks@.take(i + 1).to_set())));
            i = i + 1;
        }
        assert(ks@.take(i as int) =~= ks@);
        assert(orig.restrict(ks@.to_set()) =~= orig);
    }
}

} // verus!
