//! The evaluator: values, the environment and the walk over the syntax tree.

use crate::ast::{
    lemma_model_of_list, lemma_weights_bound, model, models, spanned_model, weight, weights, Expr, Kind, List,
    Span, Spanned,
};
use crate::eval::assets::Assets;
use crate::eval::error::{Argument, EvalError, Failure, Operator};
use crate::eval::operators::{apply, first_missing, kind_name, values_of};
use crate::eval::pipeline::rewrite;
use crate::eval::semantics::{
    evaluate, gather, lemma_run_stops, lemma_threaded_weight, lemma_weights_split, outcome_of, run, threaded,
    Finished, Gathered, Operand,
};
use crate::eval::assoc::{
    absent_from, assoc_map, last_at, lemma_assoc_absent, lemma_assoc_found, lemma_assoc_push,
    lemma_assoc_update,
};
use crate::image::{Image, Raster};
use crate::number::model::Double;
use crate::number::Number;
use vstd::prelude::*;

pub mod assets;
pub mod assoc;
pub mod error;
pub mod laws;
pub mod operators;
pub mod pipeline;
pub mod semantics;

verus! {

/// A value of the language.
#[derive(Debug)]
pub enum DataType {
    Nil,
    Number(Number),
    Str(String),
    Sym(String),
    Image(Image),
}

/// What a value is.
pub enum Value {
    Nil,
    Number(Double),
    Str(Seq<char>),
    Sym(Seq<char>),
    Image(Raster),
}

impl View for DataType {
    type V = Value;

    open spec fn view(&self) -> Value {
        match *self {
            DataType::Nil => Value::Nil,
            DataType::Number(n) => Value::Number(n@),
            DataType::Str(s) => Value::Str(s@),
            DataType::Sym(s) => Value::Sym(s@),
            DataType::Image(i) => Value::Image(i@),
        }
    }
}

/// The kind of a value.
pub open spec fn value_kind(v: Value) -> Kind {
    match v {
        Value::Nil => Kind::Nil,
        Value::Number(_) => Kind::Number,
        Value::Str(_) => Kind::Str,
        Value::Sym(_) => Kind::Sym,
        Value::Image(_) => Kind::Image,
    }
}

/// The name of the kind of a value.
pub open spec fn kind_name_of(v: Value) -> Seq<char> {
    match v {
        Value::Nil => "nil"@,
        Value::Number(_) => "number"@,
        Value::Str(_) => "string"@,
        Value::Sym(_) => "symbol"@,
        Value::Image(_) => "image"@,
    }
}

impl Clone for DataType {
    fn clone(&self) -> (copy: Self)
        ensures
            copy@ == self@,
    {
        match self {
            DataType::Nil => DataType::Nil,
            DataType::Number(n) => DataType::Number(*n),
            DataType::Str(s) => DataType::Str(s.clone()),
            DataType::Sym(s) => DataType::Sym(s.clone()),
            DataType::Image(i) => DataType::Image(i.clone()),
        }
    }
}

impl DataType {
    /// The name of the kind of the value.
    pub fn kind_name(&self) -> (name: &'static str)
        ensures
            name@ == kind_name_of(self@),
    {
        match self {
            DataType::Nil => "nil",
            DataType::Number(_) => "number",
            DataType::Str(_) => "string",
            DataType::Sym(_) => "symbol",
            DataType::Image(_) => "image",
        }
    }

    /// The kind of the value.
    pub fn kind(&self) -> (k: Kind)
        ensures
            k == value_kind(self@),
    {
        match self {
            DataType::Nil => Kind::Nil,
            DataType::Number(_) => Kind::Number,
            DataType::Str(_) => Kind::Str,
            DataType::Sym(_) => Kind::Sym,
            DataType::Image(_) => Kind::Image,
        }
    }
}

/// What an environment is: the values that names are bound to, and the
/// canvas if one was made.
pub struct EnvModel {
    pub vars: Map<Seq<char>, Value>,
    pub canvas: Option<Raster>,
}

/// The environment of a run: one flat scope of names, and at most one canvas.
#[derive(Debug)]
pub struct Env {
    vars: Vec<(String, DataType)>,
    canvas: Option<Image>,
}

/// The names and values of a list of bindings.
pub open spec fn bindings(vars: Seq<(String, DataType)>) -> Seq<(Seq<char>, Value)> {
    Seq::new(vars.len(), |i: int| (vars[i].0@, vars[i].1@))
}

/// What an image in a slot is.
pub open spec fn slot(canvas: Option<Image>) -> Option<Raster> {
    match canvas {
        Some(c) => Some(c@),
        None => None,
    }
}

impl View for Env {
    type V = EnvModel;

    closed spec fn view(&self) -> EnvModel {
        EnvModel { vars: assoc_map(bindings(self.vars@)), canvas: slot(self.canvas) }
    }
}

impl Env {
    /// An environment with no names and no canvas.
    pub fn new() -> (env: Env)
        ensures
            env@ == (EnvModel { vars: Map::empty(), canvas: None }),
    {
        let env = Env { vars: Vec::new(), canvas: None };
        proof {
            assert(bindings(env.vars@) =~= Seq::empty());
        }
        env
    }

    /// The place of the last binding of `name`, if there is one.
    fn find(&self, name: &str) -> (r: Option<usize>)
        ensures
            match r {
                Some(i) => last_at(bindings(self.vars@), name@, i as int),
                None => absent_from(bindings(self.vars@), name@, 0),
            },
    {
        let key = name.to_owned();
        let mut i: usize = self.vars.len();
        while i > 0
            invariant
                i <= self.vars.len(),
                key@ == name@,
                absent_from(bindings(self.vars@), name@, i as int),
            decreases i,
        {
            i -= 1;
            if self.vars[i].0 == key {
                return Some(i);
            }
        }
        None
    }

    /// Binds `name` to `value`, in place of what it was bound to before.
    pub fn set(&mut self, name: String, value: DataType)
        ensures
            final(self)@ == (EnvModel {
                vars: old(self)@.vars.insert(name@, value@),
                canvas: old(self)@.canvas,
            }),
    {
        let ghost before = bindings(self.vars@);
        match self.find(name.as_str()) {
            Some(i) => {
                proof {
                    lemma_assoc_update(before, name@, i as int, value@);
                }
                self.vars.set(i, (name, value));
                proof {
                    assert(bindings(self.vars@) =~= before.update(i as int, (name@, value@)));
                }
            },
            None => {
                proof {
                    lemma_assoc_push(before, name@, value@);
                }
                self.vars.push((name, value));
                proof {
                    assert(bindings(self.vars@) =~= before.push((name@, value@)));
                }
            },
        }
    }

    /// The value that `name` is bound to.
    pub fn get(&self, name: &str) -> (r: Option<&DataType>)
        ensures
            match r {
                Some(v) => self@.vars.contains_key(name@) && v@ == self@.vars[name@],
                None => !self@.vars.contains_key(name@),
            },
    {
        match self.find(name) {
            Some(i) => {
                proof {
                    lemma_assoc_found(bindings(self.vars@), name@, i as int);
                }
                Some(&self.vars[i].1)
            },
            None => {
                proof {
                    lemma_assoc_absent(bindings(self.vars@), name@);
                }
                None
            },
        }
    }

    /// The canvas.
    pub fn canvas(&self) -> (r: Option<&Image>)
        ensures
            match r {
                Some(c) => self@.canvas == Some(c@),
                None => self@.canvas is None,
            },
    {
        self.canvas.as_ref()
    }

    /// The canvas, to be changed in place.
    pub fn canvas_mut(&mut self) -> (r: Option<&mut Image>)
        ensures
            match r {
                Some(c) => old(self)@.canvas == Some(c@) && final(self)@ == (EnvModel {
                    vars: old(self)@.vars,
                    canvas: Some(final(c)@),
                }),
                None => old(self)@.canvas is None && final(self)@ == old(self)@,
            },
    {
        match &mut self.canvas {
            Some(c) => Some(c),
            None => None,
        }
    }

    /// Puts a new canvas in the place of the one before, which is dropped.
    pub fn set_canvas(&mut self, canvas: Image)
        ensures
            final(self)@ == (EnvModel { vars: old(self)@.vars, canvas: Some(canvas@) }),
    {
        self.canvas = Some(canvas);
    }
}

/// Once an operand has failed, the operands after it are not evaluated.
proof fn lemma_gather_stops(
    env: EnvModel,
    assets: crate::eval::assets::AssetsModel,
    xs: Seq<(Expr, Span)>,
    table: Seq<Operand>,
    span: Span,
    at: nat,
    count: nat,
)
    requires
        at <= count,
        gather(env, assets, xs, table, span, at).values is Err,
    ensures
        gather(env, assets, xs, table, span, count) == gather(env, assets, xs, table, span, at),
    decreases count,
{
    if at < count {
        lemma_gather_stops(env, assets, xs, table, span, at, (count - 1) as nat);
    }
}

/// What the head of an application is called in a report.
fn head_text(head: &List) -> (name: String)
    ensures
        name@ == crate::eval::semantics::head_name(model(*head)),
{
    match head {
        List::Sym(s) => s.clone(),
        other => kind_name(other.kind()).to_owned(),
    }
}

/// The first `count` operands of the application `xs`, evaluated from left
/// to right and each held against the kind that the table asks of it.
fn gather_operands(
    env: &mut Env,
    assets: &Assets,
    xs: &Vec<Spanned>,
    table: &Vec<Operand>,
    span: Span,
    count: usize,
) -> (r: Result<Vec<DataType>, Failure>)
    requires
        count < xs@.len(),
        count <= table@.len(),
    ensures
        gather(old(env)@, assets@, models(xs@), table@, span, count as nat) == (Gathered {
            values: match r {
                Ok(values) => Ok(values_of(values@)),
                Err(f) => Err(f@),
            },
            env: final(env)@,
        }),
    decreases weights(models(xs@)), *xs, count,
{
    let ghost start = env@;
    let ghost nodes = models(xs@);
    let mut values: Vec<DataType> = Vec::new();
    let mut i: usize = 0;
    proof {
        assert(values_of(values@) =~= Seq::empty());
    }
    while i < count
        invariant
            i <= count,
            count < xs@.len(),
            count <= table@.len(),
            nodes == models(xs@),
            start == old(env)@,
            gather(start, assets@, nodes, table@, span, i as nat) == (Gathered {
                values: Ok(values_of(values@)),
                env: env@,
            }),
        decreases count - i,
    {
        proof {
            lemma_weights_bound(nodes, (i + 1) as int);
            assert(nodes[(i + 1) as int] == spanned_model(xs@[(i + 1) as int]));
            assert(decreases_to!(*xs => xs[(i + 1) as int]));
        }
        let ghost so_far = values_of(values@);
        let ghost env_before = env@;
        match eval_expr(env, assets, &xs[i + 1]) {
            Err(f) => {
                proof {
                    assert(gather(start, assets@, nodes, table@, span, (i + 1) as nat) == (Gathered {
                        values: Err(f@),
                        env: env@,
                    }));
                    lemma_gather_stops(start, assets@, nodes, table@, span, (i + 1) as nat, count as nat);
                }
                return Err(f);
            },
            Ok(v) => {
                let operand = table[i];
                match operand.kind {
                    Some(k) => {
                        let actual = v.kind();
                        if actual != k {
                            let f = Failure {
                                error: EvalError::TypeMismatch { expected: k, actual, argument: operand.argument },
                                span,
                            };
                            proof {
                                assert(gather(start, assets@, nodes, table@, span, (i + 1) as nat)
                                    == (Gathered { values: Err(f@), env: env@ }));
                                lemma_gather_stops(
                                    start,
                                    assets@,
                                    nodes,
                                    table@,
                                    span,
                                    (i + 1) as nat,
                                    count as nat,
                                );
                            }
                            return Err(f);
                        }
                    },
                    None => {},
                }
                values.push(v);
                proof {
                    assert(values_of(values@) =~= so_far.push(v@));
                }
            },
        }
        i += 1;
    }
    Ok(values)
}

/// `def`: binds the symbol that is the first operand to the value of the
/// second. The first operand is not evaluated.
fn define(
    env: &mut Env,
    assets: &Assets,
    xs: &Vec<Spanned>,
    span: Span,
) -> (r: Result<DataType, Failure>)
    requires
        xs@.len() >= 3,
        crate::eval::semantics::head_operator(model(xs@[0].0)) == Some(Operator::Def),
    ensures
        outcome_of(r, final(env)@) == evaluate(old(env)@, assets@, (Expr::Cons(models(xs@)), span)),
    decreases weights(models(xs@)), *xs, xs@.len(),
{
    let ghost nodes = models(xs@);
    proof {
        lemma_weights_bound(nodes, 2);
        assert(nodes[0] == spanned_model(xs@[0]));
        assert(nodes[1] == spanned_model(xs@[1]));
        assert(nodes[2] == spanned_model(xs@[2]));
        assert(decreases_to!(*xs => xs[2]));
        lemma_table_complete(Operator::Def, (xs@.len() - 1) as nat);
    }
    let v = match eval_expr(env, assets, &xs[2]) {
        Ok(v) => v,
        Err(f) => {
            return Err(f);
        },
    };
    match &xs[1].0 {
        List::Sym(name) => {
            env.set(name.clone(), v);
            Ok(DataType::Nil)
        },
        other => Err(
            Failure {
                error: EvalError::TypeMismatch {
                    expected: Kind::Sym,
                    actual: other.kind(),
                    argument: Argument::Name,
                },
                span,
            },
        ),
    }
}

/// `->`: the first operand threaded through the steps that follow it, and
/// the node that this builds evaluated.
fn thread(
    env: &mut Env,
    assets: &Assets,
    xs: &Vec<Spanned>,
    span: Span,
) -> (r: Result<DataType, Failure>)
    requires
        xs@.len() >= 2,
        crate::eval::semantics::head_operator(model(xs@[0].0)) == Some(Operator::Thread),
    ensures
        outcome_of(r, final(env)@) == evaluate(old(env)@, assets@, (Expr::Cons(models(xs@)), span)),
    decreases weights(models(xs@)), *xs, xs@.len(),
{
    let ghost nodes = models(xs@);
    proof {
        lemma_weights_bound(nodes, 1);
        assert(nodes[0] == spanned_model(xs@[0]));
        assert(nodes[1] == spanned_model(xs@[1]));
        assert(decreases_to!(*xs => xs[1]));
        lemma_table_complete(Operator::Thread, (xs@.len() - 1) as nat);
    }
    if xs.len() == 2 {
        return eval_expr(env, assets, &xs[1]);
    }
    match rewrite(&xs[1], xs, 2) {
        Err(e) => Err(Failure { error: e, span }),
        Ok(built) => {
            proof {
                let steps = nodes.subrange(2, nodes.len() as int);
                lemma_threaded_weight(nodes[1], steps, steps.len());
                assert(steps.subrange(0, steps.len() as int) =~= steps);
                lemma_weights_split(nodes);
            }
            eval_expr(env, assets, &built)
        },
    }
}

/// An operator misses no operand where as many are given as its table has
/// required entries.
proof fn lemma_table_complete(op: Operator, available: nat)
    requires
        op == Operator::Def && available >= 2 || op == Operator::Thread && available >= 1,
    ensures
        crate::eval::semantics::first_missing(
            crate::eval::semantics::operand_table(op),
            available,
            crate::eval::semantics::operand_table(op).len(),
        ) is None,
{
    let table = crate::eval::semantics::operand_table(op);
    reveal_with_fuel(crate::eval::semantics::first_missing, 4);
    assert(crate::eval::semantics::first_missing(table, available, 0) is None);
    assert(crate::eval::semantics::first_missing(table, available, 1) is None);
    if op == Operator::Def {
        assert(crate::eval::semantics::first_missing(table, available, 2) is None);
    }
}

/// An application: the head selects the operator, and the operator is
/// applied to the operands.
fn apply_list(
    env: &mut Env,
    assets: &Assets,
    xs: &Vec<Spanned>,
    span: Span,
) -> (r: Result<DataType, Failure>)
    ensures
        outcome_of(r, final(env)@) == evaluate(old(env)@, assets@, (Expr::Cons(models(xs@)), span)),
    decreases weights(models(xs@)), *xs, xs@.len() + 1,
{
    let ghost nodes = models(xs@);
    if xs.len() == 0 {
        return Err(Failure { error: EvalError::EmptyApplication, span });
    }
    proof {
        assert(nodes[0] == spanned_model(xs@[0]));
    }
    let selected = match &xs[0].0 {
        List::Sym(s) => Operator::parse(s.as_str()),
        _ => None,
    };
    let op = match selected {
        None => {
            return Err(Failure { error: EvalError::UnknownOperator(head_text(&xs[0].0)), span });
        },
        Some(op) => op,
    };
    let table = op.operands();
    match first_missing(&table, xs.len() - 1) {
        Some(argument) => {
            return Err(Failure { error: EvalError::MissingArgument { operator: op, argument }, span });
        },
        None => {},
    }
    match op {
        Operator::Def => {
            if xs.len() < 3 {
                return Ok(DataType::Nil);
            }
            define(env, assets, xs, span)
        },
        Operator::Thread => {
            if xs.len() < 2 {
                return Ok(DataType::Nil);
            }
            thread(env, assets, xs, span)
        },
        _ => {
            let available = xs.len() - 1;
            let count = if table.len() <= available { table.len() } else { available };
            match gather_operands(env, assets, xs, &table, span, count) {
                Ok(values) => apply(op, &values, env, assets, span),
                Err(f) => Err(f),
            }
        },
    }
}

/// Evaluates a node in an environment. The result is the value of the node,
/// or the first failure with the place of the node that was being evaluated;
/// what the evaluation did to the environment before a failure stays done.
pub fn eval_expr(env: &mut Env, assets: &Assets, expr: &Spanned) -> (r: Result<DataType, Failure>)
    ensures
        outcome_of(r, final(env)@) == evaluate(old(env)@, assets@, spanned_model(*expr)),
    decreases weight(model(expr.0)), expr.0, 0nat,
{
    let span = expr.1;
    match &expr.0 {
        List::Nil => Ok(DataType::Nil),
        List::Int(n) => Ok(DataType::Number(Number::from_i64(*n))),
        List::Float(x) => Ok(DataType::Number(*x)),
        List::Str(s) => Ok(DataType::Str(s.clone())),
        List::Sym(s) => match env.get(s.as_str()) {
            Some(v) => Ok(v.clone()),
            None => Err(Failure { error: EvalError::UndefinedSymbol(s.clone()), span }),
        },
        List::Quote(b) => {
            proof {
                assert(model(expr.0) == Expr::Quote(Box::new((model(b.0), b.1))));
            }
            match &b.0 {
                List::Sym(s) => Ok(DataType::Sym(s.clone())),
                _ => Err(Failure { error: EvalError::Unsupported(Kind::Quote), span }),
            }
        },
        List::Vec(_) => Err(Failure { error: EvalError::Unsupported(Kind::Vector), span }),
        List::Cons(xs) => {
            proof {
                lemma_model_of_list(*xs);
                assert(decreases_to!(expr.0 => expr.0->Cons_0));
            }
            apply_list(env, assets, xs, span)
        },
    }
}

/// Evaluates the nodes of a program in their order against one environment,
/// and stops at the first failure.
pub fn eval_program(
    env: &mut Env,
    assets: &Assets,
    program: &Vec<Spanned>,
) -> (r: Result<(), Failure>)
    ensures
        run(old(env)@, assets@, models(program@), program@.len()) == (Finished {
            failure: match r {
                Ok(_) => None,
                Err(f) => Some(f@),
            },
            env: final(env)@,
        }),
{
    let ghost start = env@;
    let ghost nodes = models(program@);
    let mut i: usize = 0;
    while i < program.len()
        invariant
            i <= program.len(),
            nodes == models(program@),
            start == old(env)@,
            run(start, assets@, nodes, i as nat) == (Finished { failure: None, env: env@ }),
        decreases program.len() - i,
    {
        proof {
            assert(nodes[i as int] == spanned_model(program@[i as int]));
        }
        match eval_expr(env, assets, &program[i]) {
            Ok(_) => {},
            Err(f) => {
                proof {
                    assert(run(start, assets@, nodes, (i + 1) as nat) == (Finished {
                        failure: Some(f@),
                        env: env@,
                    }));
                    lemma_run_stops(start, assets@, nodes, (i + 1) as nat, program@.len());
                }
                return Err(f);
            },
        }
        i += 1;
    }
    Ok(())
}

} // verus!
