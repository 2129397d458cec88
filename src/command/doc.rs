//! Help text for a grammar spec tree, rendered as a small markup tree of
//! plain text, bold runs and de-emphasised (grey) runs.
use vstd::prelude::*;
use vstd::string::*;
use crate::command::{Spec, SpecModel, opt_text, texts};
use crate::text::{int_text, push_int};

verus! {

broadcast use vstd::std_specs::vec::axiom_vec_index_decreases;

/// Options of the rendering: whether alternatives at this level go on lines
/// of their own with their descriptions, whether descriptions are wanted,
/// and the name that an enclosing `Doc` gives to the node.
#[derive(Debug, PartialEq)]
pub struct Opts {
    pub split_one_of: bool,
    pub output_desc: bool,
    pub name: Option<String>,
}

impl Default for Opts {
    fn default() -> (r: Self)
        ensures
            r.split_one_of,
            r.output_desc,
            r.name is None,
    {
        Opts { split_one_of: true, output_desc: true, name: None }
    }
}

/// What the rendering reads of `Opts`.
pub struct OptsModel {
    pub split_one_of: bool,
    pub name: Option<Seq<char>>,
}

impl Opts {
    pub open spec fn model(&self) -> OptsModel {
        OptsModel { split_one_of: self.split_one_of, name: opt_text(self.name) }
    }
}

/// A node of rendered help text.
#[derive(Debug, PartialEq)]
pub enum Markup {
    Text(String),
    Bold(Vec<Markup>),
    Grey(Vec<Markup>),
}

/// The content of a `Markup` node.
pub enum MarkupModel {
    Text(Seq<char>),
    Bold(Seq<MarkupModel>),
    Grey(Seq<MarkupModel>),
}

impl Markup {
    pub open spec fn model(&self) -> MarkupModel
        decreases self,
    {
        match self {
            Markup::Text(t) => MarkupModel::Text(t@),
            Markup::Bold(v) => MarkupModel::Bold(
                Seq::new(v.len() as nat, |i: int| if 0 <= i < v.len() { v[i].model() } else { MarkupModel::Text(Seq::empty()) }),
            ),
            Markup::Grey(v) => MarkupModel::Grey(
                Seq::new(v.len() as nat, |i: int| if 0 <= i < v.len() { v[i].model() } else { MarkupModel::Text(Seq::empty()) }),
            ),
        }
    }
}

/// The contents of a sequence of markup nodes.
pub open spec fn markups(v: Seq<Markup>) -> Seq<MarkupModel> {
    v.map_values(|m: Markup| m.model())
}

pub open spec fn text_node(t: Seq<char>) -> MarkupModel {
    MarkupModel::Text(t)
}

/// Integers: "#" when unbounded, the number in bold when both bounds are
/// equal, "min-max" (min 0 when absent) with an upper bound, else "min+".
pub open spec fn int_doc(min: Option<i32>, max: Option<i32>) -> Seq<MarkupModel> {
    match (min, max) {
        (None, None) => seq![text_node("#"@)],
        (Some(a), Some(b)) => if a == b {
            seq![MarkupModel::Bold(seq![text_node(int_text(a as int))])]
        } else {
            seq![text_node(int_text(a as int) + "-"@ + int_text(b as int))]
        },
        (None, Some(b)) => seq![text_node(int_text(0) + "-"@ + int_text(b as int))],
        (Some(a), None) => seq![text_node(int_text(a as int) + "+"@)],
    }
}

/// `values` joined by `sep`.
pub open spec fn join_with(values: Seq<Seq<char>>, sep: Seq<char>) -> Seq<char>
    decreases values.len(),
{
    if values.len() == 0 {
        Seq::empty()
    } else if values.len() == 1 {
        values[0]
    } else {
        join_with(values.drop_last(), sep) + sep + values.last()
    }
}

/// Enumerations: the enclosing name in brackets, or else the values
/// separated by " | " in brackets.
pub open spec fn enum_doc(values: Seq<Seq<char>>, name: Option<Seq<char>>) -> Seq<MarkupModel> {
    match name {
        Some(n) => seq![text_node("["@ + n + "]"@)],
        None => seq![text_node("["@ + join_with(values, " | "@) + "]"@)],
    }
}

/// Whether a spec tree holds no repetition node, which has no rendering.
pub open spec fn renderable(m: SpecModel) -> bool
    decreases m,
{
    match m {
        SpecModel::OneOf(v) => renderable_list(v),
        SpecModel::Chain(v) => renderable_list(v),
        SpecModel::Many { .. } => false,
        SpecModel::Opt(s) => renderable(*s),
        SpecModel::Doc { spec, .. } => renderable(*spec),
        _ => true,
    }
}

pub open spec fn renderable_list(v: Seq<SpecModel>) -> bool
    decreases v,
{
    if v.len() == 0 {
        true
    } else {
        renderable_list(v.drop_last()) && renderable(v.last())
    }
}

/// The options for the alternatives of a `OneOf`: not split.
pub open spec fn flat(o: OptsModel) -> OptsModel {
    OptsModel { split_one_of: false, name: o.name }
}

/// What goes before alternative `k` of a `OneOf`: when split, a line break
/// after the first and the alternative's description in grey on a line of
/// its own; otherwise " | " after the first.
pub open spec fn one_of_sep(split: bool, k: nat, desc: Option<Seq<char>>) -> Seq<MarkupModel> {
    if split {
        (if k > 0 {
            seq![text_node("\n"@)]
        } else {
            Seq::empty()
        }) + match desc {
            Some(d) => seq![MarkupModel::Grey(seq![text_node(d)]), text_node("\n  "@)],
            None => Seq::empty(),
        }
    } else if k > 0 {
        seq![text_node(" | "@)]
    } else {
        Seq::empty()
    }
}

/// The rendering of a spec tree, and the description that it carries up.
pub open spec fn spec_doc(m: SpecModel, o: OptsModel) -> (Seq<MarkupModel>, Option<Seq<char>>)
    decreases m,
{
    match m {
        SpecModel::Int { min, max } => (int_doc(min, max), None),
        SpecModel::Token(t) => (seq![MarkupModel::Bold(seq![text_node(t)])], None),
        SpecModel::Enum { values, .. } => (enum_doc(values, o.name), None),
        SpecModel::OneOf(v) => (
            if o.split_one_of {
                one_of_docs(v, o)
            } else {
                seq![text_node("["@)] + one_of_docs(v, o) + seq![text_node("]"@)]
            },
            None,
        ),
        SpecModel::Chain(v) => chain_docs(v, o),
        SpecModel::Many { .. } => (Seq::empty(), None),
        SpecModel::Opt(s) => {
            let d = spec_doc(*s, o);
            (d.0.push(text_node("?"@)), d.1)
        },
        SpecModel::Doc { name, desc, spec } => {
            let d = spec_doc(*spec, OptsModel { split_one_of: o.split_one_of, name: Some(name) });
            (d.0, if desc is Some {
                desc
            } else {
                d.1
            })
        },
        SpecModel::Player => (seq![text_node("player"@)], None),
        SpecModel::Space => (seq![text_node(" "@)], None),
    }
}

/// The alternatives of a `OneOf`, each after its separator.
pub open spec fn one_of_docs(v: Seq<SpecModel>, o: OptsModel) -> Seq<MarkupModel>
    decreases v,
{
    if v.len() == 0 {
        Seq::empty()
    } else {
        let d = spec_doc(v.last(), flat(o));
        one_of_docs(v.drop_last(), o) + one_of_sep(o.split_one_of, (v.len() - 1) as nat, d.1) + d.0
    }
}

/// The parts of a `Chain` one after another, with the first part's
/// description.
pub open spec fn chain_docs(v: Seq<SpecModel>, o: OptsModel) -> (Seq<MarkupModel>, Option<Seq<char>>)
    decreases v,
{
    if v.len() == 0 {
        (Seq::empty(), None)
    } else {
        let p = chain_docs(v.drop_last(), o);
        let d = spec_doc(v.last(), o);
        (p.0 + d.0, if v.len() == 1 {
            d.1
        } else {
            p.1
        })
    }
}

fn text(s: String) -> (r: Markup)
    ensures
        r.model() == text_node(s@),
{
    Markup::Text(s)
}

fn bold_text(s: String) -> (r: Markup)
    ensures
        r.model() == MarkupModel::Bold(seq![text_node(s@)]),
{
    let ghost sv = s@;
    let inner = vec![Markup::Text(s)];
    assert(inner@.len() == 1);
    assert(inner@[0].model() == text_node(sv));
    let r = Markup::Bold(inner);
    proof {
        assert(r.model() matches MarkupModel::Bold(x) && x =~= seq![text_node(sv)]);
    }
    r
}

fn grey_text(s: String) -> (r: Markup)
    ensures
        r.model() == MarkupModel::Grey(seq![text_node(s@)]),
{
    let ghost sv = s@;
    let inner = vec![Markup::Text(s)];
    assert(inner@.len() == 1);
    assert(inner@[0].model() == text_node(sv));
    let r = Markup::Grey(inner);
    proof {
        assert(r.model() matches MarkupModel::Grey(x) && x =~= seq![text_node(sv)]);
    }
    r
}

fn single(m: Markup) -> (r: Vec<Markup>)
    ensures
        markups(r@) == seq![m.model()],
{
    let r = vec![m];
    assert(markups(r@) =~= seq![m.model()]);
    r
}

fn append_docs(out: &mut Vec<Markup>, more: Vec<Markup>)
    ensures
        markups(final(out)@) == markups(old(out)@) + markups(more@),
{
    let mut more = more;
    let ghost m = more@;
    out.append(&mut more);
    assert(markups(final(out)@) =~= markups(old(out)@) + markups(m));
}

fn push_doc(out: &mut Vec<Markup>, m: Markup)
    ensures
        markups(final(out)@) == markups(old(out)@).push(m.model()),
{
    out.push(m);
    assert(markups(final(out)@) =~= markups(old(out)@).push(m.model()));
}

/// Renders integer bounds.
pub fn doc_int(min: Option<i32>, max: Option<i32>) -> (r: Vec<Markup>)
    ensures
        markups(r@) == int_doc(min, max),
{
    match (min, max) {
        (None, None) => single(text(String::from_str("#"))),
        (Some(a), Some(b)) => {
            let mut s = String::new();
            push_int(&mut s, a as i64);
            if a == b {
                single(bold_text(s))
            } else {
                s.append("-");
                push_int(&mut s, b as i64);
                single(text(s))
            }
        },
        (None, Some(b)) => {
            let mut s = String::new();
            push_int(&mut s, 0);
            s.append("-");
            push_int(&mut s, b as i64);
            single(text(s))
        },
        (Some(a), None) => {
            let mut s = String::new();
            push_int(&mut s, a as i64);
            s.append("+");
            single(text(s))
        },
    }
}

/// Renders a token literal, in bold.
pub fn doc_token(token: &String) -> (r: Vec<Markup>)
    ensures
        markups(r@) == seq![MarkupModel::Bold(seq![text_node(token@)])],
{
    single(bold_text(token.clone()))
}

/// Renders the values of an enumeration, or the name given to it.
pub fn doc_enum(values: &Vec<String>, opts: &Opts) -> (r: Vec<Markup>)
    ensures
        markups(r@) == enum_doc(texts(values@), opts.model().name),
{
    if let Some(name) = &opts.name {
        let mut s = String::from_str("[");
        s.append(name.as_str());
        s.append("]");
        return single(text(s));
    }
    let ghost vs = texts(values@);
    let mut s = String::from_str("[");
    let ghost start = s@;
    let mut i: usize = 0;
    while i < values.len()
        invariant
            i <= values@.len(),
            vs == texts(values@),
            s@ == start + join_with(vs.take(i as int), " | "@),
        decreases values@.len() - i,
    {
        if i > 0 {
            s.append(" | ");
        }
        s.append(values[i].as_str());
        proof {
            let t = vs.take(i + 1);
            assert(t.drop_last() =~= vs.take(i as int));
            if i == 0 {
                assert(vs.take(0) =~= Seq::<Seq<char>>::empty());
            }
        }
        i = i + 1;
    }
    s.append("]");
    assert(vs.take(i as int) =~= vs);
    single(text(s))
}

proof fn lemma_renderable_list(v: Seq<SpecModel>, i: int)
    requires
        renderable_list(v),
        0 <= i < v.len(),
    ensures
        renderable(v[i]),
    decreases v.len(),
{
    if i < v.len() - 1 {
        lemma_renderable_list(v.drop_last(), i);
    }
}

impl Spec {
    /// The models of a node list.
    pub open spec fn models(v: Seq<Spec>) -> Seq<SpecModel> {
        Seq::new(v.len(), |i: int| v[i]@)
    }

    fn doc_one_of(v: &Vec<Spec>, opts: &Opts) -> (r: Vec<Markup>)
        requires
            renderable_list(Spec::models(v@)),
        ensures
            markups(r@) == one_of_docs(Spec::models(v@), opts.model()),
        decreases v,
    {
        let ghost ms = Spec::models(v@);
        let ghost o = opts.model();
        let mut out: Vec<Markup> = Vec::new();
        let mut i: usize = 0;
        while i < v.len()
            invariant
                i <= v@.len(),
                ms == Spec::models(v@),
                o == opts.model(),
                renderable_list(ms),
                markups(out@) == one_of_docs(ms.take(i as int), o),
            decreases v@.len() - i,
        {
            proof {
                lemma_renderable_list(ms, i as int);
            }
            let name = match &opts.name {
                Some(n) => Some(n.clone()),
                None => None,
            };
            let child_opts = Opts { split_one_of: false, output_desc: opts.output_desc, name };
            assert(child_opts.model() == flat(o));
            let (child_doc, desc) = v[i].doc(&child_opts);
            if opts.split_one_of {
                if i > 0 {
                    push_doc(&mut out, text(String::from_str("\n")));
                }
                if let Some(d) = desc {
                    push_doc(&mut out, grey_text(d));
                    push_doc(&mut out, text(String::from_str("\n  ")));
                }
            } else if i > 0 {
                push_doc(&mut out, text(String::from_str(" | ")));
            }
            let ghost before_child = markups(out@);
            append_docs(&mut out, child_doc);
            proof {
                let t = ms.take(i + 1);
                assert(t.drop_last() =~= ms.take(i as int));
                assert(t.last() == v@[i as int]@);
                let sep = one_of_sep(o.split_one_of, i as nat, opt_text(desc));
                assert(before_child =~= one_of_docs(ms.take(i as int), o) + sep);
            }
            i = i + 1;
        }
        assert(ms.take(i as int) =~= ms);
        out
    }

    fn doc_chain(v: &Vec<Spec>, opts: &Opts) -> (r: (Vec<Markup>, Option<String>))
        requires
            renderable_list(Spec::models(v@)),
        ensures
            markups(r.0@) == chain_docs(Spec::models(v@), opts.model()).0,
            opt_text(r.1) == chain_docs(Spec::models(v@), opts.model()).1,
        decreases v,
    {
        let ghost ms = Spec::models(v@);
        let ghost o = opts.model();
        let mut out: Vec<Markup> = Vec::new();
        let mut first: Option<String> = None;
        let mut i: usize = 0;
        while i < v.len()
            invariant
                i <= v@.len(),
                ms == Spec::models(v@),
                o == opts.model(),
                renderable_list(ms),
                markups(out@) == chain_docs(ms.take(i as int), o).0,
                opt_text(first) == chain_docs(ms.take(i as int), o).1,
            decreases v@.len() - i,
        {
            proof {
                lemma_renderable_list(ms, i as int);
            }
            let (child_doc, desc) = v[i].doc(opts);
            if i == 0 {
                first = desc;
            }
            append_docs(&mut out, child_doc);
            proof {
                let t = ms.take(i + 1);
                assert(t.drop_last() =~= ms.take(i as int));
                assert(t.last() == v@[i as int]@);
            }
            i = i + 1;
        }
        assert(ms.take(i as int) =~= ms);
        (out, first)
    }

    /// Renders this tree as help text under `opts`, with the description
    /// that it carries up to an enclosing node.
    pub fn doc(&self, opts: &Opts) -> (r: (Vec<Markup>, Option<String>))
        requires
            renderable(self@),
        ensures
            markups(r.0@) == spec_doc(self@, opts.model()).0,
            opt_text(r.1) == spec_doc(self@, opts.model()).1,
        decreases self,
    {
        match self {
            Spec::Int { min, max } => (doc_int(*min, *max), None),
            Spec::Token(t) => (doc_token(t), None),
            Spec::Enum { values, .. } => (doc_enum(values, opts), None),
            Spec::OneOf(v) => {
                proof {
                    let mm = self@->OneOf_0;
                    assert(mm =~= Spec::models(v@));
                }
                let inner = Spec::doc_one_of(v, opts);
                if opts.split_one_of {
                    (inner, None)
                } else {
                    let mut out = single(text(String::from_str("[")));
                    append_docs(&mut out, inner);
                    push_doc(&mut out, text(String::from_str("]")));
                    (out, None)
                }
            },
            Spec::Chain(v) => {
                proof {
                    let mm = self@->Chain_0;
                    assert(mm =~= Spec::models(v@));
                }
                Spec::doc_chain(v, opts)
            },
            Spec::Opt(s) => {
                let (mut d, desc) = s.doc(opts);
                push_doc(&mut d, text(String::from_str("?")));
                (d, desc)
            },
            Spec::Doc { name, desc, spec } => {
                let named = Opts { split_one_of: opts.split_one_of, output_desc: opts.output_desc, name: Some(name.clone()) };
                let (d, child_desc) = spec.doc(&named);
                let out_desc = match desc {
                    Some(x) => Some(x.clone()),
                    None => child_desc,
                };
                (d, out_desc)
            },
            Spec::Player => (single(text(String::from_str("player"))), None),
            Spec::Space => (single(text(String::from_str(" "))), None),
            Spec::Many { .. } => (Vec::new(), None),
        }
    }
}

} // verus!
