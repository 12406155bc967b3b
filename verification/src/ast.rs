//! The syntax tree that the evaluator walks.

use crate::number::model::Double;
use crate::number::Number;
use vstd::prelude::*;

verus! {

/// A range of bytes in the source text.
#[derive(Clone, Copy, Debug, PartialEq, Eq, Structural)]
pub struct Span {
    pub start: usize,
    pub end: usize,
}

/// A node with the place it came from.
pub type Spanned = (List, Span);

/// A node of the syntax tree.
#[derive(Debug)]
pub enum List {
    Nil,
    Int(i64),
    Float(Number),
    Str(String),
    Sym(String),
    /// A list in round brackets: an application.
    Cons(Vec<Spanned>),
    /// A list in square brackets.
    Vec(Vec<Spanned>),
    Quote(Box<Spanned>),
}

/// What a node is, with sequences for vectors and strings.
pub enum Expr {
    Nil,
    Int(int),
    Float(Double),
    Str(Seq<char>),
    Sym(Seq<char>),
    Cons(Seq<(Expr, Span)>),
    Vec(Seq<(Expr, Span)>),
    Quote(Box<(Expr, Span)>),
}

/// The kinds of nodes and of values, for reports of a wrong kind.
#[derive(Clone, Copy, Debug, PartialEq, Eq, Structural)]
pub enum Kind {
    Nil,
    Number,
    Str,
    Sym,
    Image,
    List,
    Vector,
    Quote,
}

/// What a node of the tree is.
pub open spec fn model(e: List) -> Expr
    decreases e,
{
    match e {
        List::Nil => Expr::Nil,
        List::Int(n) => Expr::Int(n as int),
        List::Float(x) => Expr::Float(x@),
        List::Str(s) => Expr::Str(s@),
        List::Sym(s) => Expr::Sym(s@),
        List::Cons(xs) => Expr::Cons(
            Seq::new(
                xs@.len(),
                |i: int|
                    if 0 <= i < xs@.len() {
                        (model(xs@[i].0), xs@[i].1)
                    } else {
                        (Expr::Nil, xs@[i].1)
                    },
            ),
        ),
        List::Vec(xs) => Expr::Vec(
            Seq::new(
                xs@.len(),
                |i: int|
                    if 0 <= i < xs@.len() {
                        (model(xs@[i].0), xs@[i].1)
                    } else {
                        (Expr::Nil, xs@[i].1)
                    },
            ),
        ),
        List::Quote(b) => Expr::Quote(Box::new((model((*b).0), (*b).1))),
    }
}

/// What a node with its place is.
pub open spec fn spanned_model(e: Spanned) -> (Expr, Span) {
    (model(e.0), e.1)
}

/// What a sequence of nodes is.
pub open spec fn models(xs: Seq<Spanned>) -> Seq<(Expr, Span)> {
    Seq::new(xs.len(), |i: int| spanned_model(xs[i]))
}

/// The kind of a node.
pub open spec fn kind_of(e: Expr) -> Kind {
    match e {
        Expr::Nil => Kind::Nil,
        Expr::Int(_) => Kind::Number,
        Expr::Float(_) => Kind::Number,
        Expr::Str(_) => Kind::Str,
        Expr::Sym(_) => Kind::Sym,
        Expr::Cons(_) => Kind::List,
        Expr::Vec(_) => Kind::Vector,
        Expr::Quote(_) => Kind::Quote,
    }
}

/// The weight of a node: the number of its leaves, counting a quote as one
/// more. A list weighs what its elements weigh together.
pub open spec fn weight(e: Expr) -> nat
    decreases e,
{
    match e {
        Expr::Cons(xs) => weights(xs),
        Expr::Vec(xs) => weights(xs),
        Expr::Quote(b) => 1 + weight((*b).0),
        _ => 1,
    }
}

/// The weight of a sequence of nodes.
pub open spec fn weights(xs: Seq<(Expr, Span)>) -> nat
    decreases xs,
{
    if xs.len() == 0 {
        0
    } else {
        weights(xs.drop_last()) + weight(xs.last().0)
    }
}

/// A list weighs at least as much as any one of its elements.
pub proof fn lemma_weights_bound(xs: Seq<(Expr, Span)>, i: int)
    requires
        0 <= i < xs.len(),
    ensures
        weight(xs[i].0) <= weights(xs),
    decreases xs.len(),
{
    if i < xs.len() - 1 {
        lemma_weights_bound(xs.drop_last(), i);
    }
}

/// The weight of a sequence with one more node at its end.
pub proof fn lemma_weights_push(xs: Seq<(Expr, Span)>, x: (Expr, Span))
    ensures
        weights(xs.push(x)) == weights(xs) + weight(x.0),
{
    assert(xs.push(x).drop_last() =~= xs);
}

/// The weight of two sequences joined.
pub proof fn lemma_weights_add(xs: Seq<(Expr, Span)>, ys: Seq<(Expr, Span)>)
    ensures
        weights(xs + ys) == weights(xs) + weights(ys),
    decreases ys.len(),
{
    if ys.len() == 0 {
        assert(xs + ys =~= xs);
    } else {
        lemma_weights_add(xs, ys.drop_last());
        assert((xs + ys).drop_last() =~= xs + ys.drop_last());
    }
}

/// The nodes of a list as the model has them.
pub proof fn lemma_model_of_list(xs: Vec<Spanned>)
    ensures
        model(List::Cons(xs)) == Expr::Cons(models(xs@)),
        model(List::Vec(xs)) == Expr::Vec(models(xs@)),
{
    assert(model(List::Cons(xs))->Cons_0 =~= models(xs@));
    assert(model(List::Vec(xs))->Vec_0 =~= models(xs@));
}

impl List {
    /// The kind of the node.
    pub fn kind(&self) -> (k: Kind)
        ensures
            k == kind_of(model(*self)),
    {
        match self {
            List::Nil => Kind::Nil,
            List::Int(_) => Kind::Number,
            List::Float(_) => Kind::Number,
            List::Str(_) => Kind::Str,
            List::Sym(_) => Kind::Sym,
            List::Cons(_) => Kind::List,
            List::Vec(_) => Kind::Vector,
            List::Quote(_) => Kind::Quote,
        }
    }
}

/// A copy of a sequence of nodes.
fn copy_nodes(xs: &Vec<Spanned>) -> (out: Vec<Spanned>)
    ensures
        models(out@) == models(xs@),
    decreases *xs,
{
    let mut out: Vec<Spanned> = Vec::new();
    let mut i: usize = 0;
    while i < xs.len()
        invariant
            i <= xs.len(),
            out@.len() == i,
            forall|j: int| 0 <= j < i ==> spanned_model(#[trigger] out@[j]) == spanned_model(xs@[j]),
        decreases xs.len() - i,
    {
        proof {
            assert(decreases_to!(*xs => xs[i as int]));
        }
        let c = copy_node(&xs[i]);
        out.push(c);
        i += 1;
    }
    proof {
        assert(models(out@) =~= models(xs@));
    }
    out
}

/// A copy of a node with its place.
pub fn copy_node(e: &Spanned) -> (r: Spanned)
    ensures
        spanned_model(r) == spanned_model(*e),
    decreases *e,
{
    let node = match &e.0 {
        List::Nil => List::Nil,
        List::Int(n) => List::Int(*n),
        List::Float(x) => List::Float(*x),
        List::Str(s) => List::Str(s.clone()),
        List::Sym(s) => List::Sym(s.clone()),
        List::Cons(xs) => {
            proof {
                assert(decreases_to!(e.0 => e.0->Cons_0));
                lemma_model_of_list(*xs);
            }
            let out = copy_nodes(xs);
            proof {
                lemma_model_of_list(out);
            }
            List::Cons(out)
        },
        List::Vec(xs) => {
            proof {
                assert(decreases_to!(e.0 => e.0->Vec_0));
                lemma_model_of_list(*xs);
            }
            let out = copy_nodes(xs);
            proof {
                lemma_model_of_list(out);
            }
            List::Vec(out)
        },
        List::Quote(b) => {
            let inner = copy_node(&**b);
            List::Quote(Box::new(inner))
        },
    };
    (node, e.1)
}

} // verus!
