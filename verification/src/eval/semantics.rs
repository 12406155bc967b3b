//! What evaluation means: the value of a node in an environment, and the
//! environment after it.

use crate::ast::{kind_of, lemma_weights_add, lemma_weights_bound, lemma_weights_push, weight, weights, Expr, Kind, Span};
use crate::eval::assets::AssetsModel;
use crate::eval::error::{Argument, ErrorModel, Failure, FailureModel, Operator};
use crate::eval::{value_kind, DataType, EnvModel, Value};
use crate::grid::shape_fits;
use crate::image::blend::{blend_rasters, mix_rasters, BlendMode};
use crate::image::effect::blurred;
use crate::image::resample::{resized_bilinear, resized_nearest, shift_fits, shift_offset, shifted};
use crate::image::Raster;
use crate::number::model::{
    below_zero, difference, from_whole, is_zero, product, quotient, remainder, sum, truncated, Double,
};
use vstd::prelude::*;

verus! {

/// How an evaluation ends: with a value or a failure, and in either case
/// with the environment as the evaluation left it.
pub struct Outcome {
    pub result: Result<Value, FailureModel>,
    pub env: EnvModel,
}

/// How an evaluation that returned `r` and left the environment `env` ended.
pub open spec fn outcome_of(r: Result<DataType, Failure>, env: EnvModel) -> Outcome {
    Outcome {
        result: match r {
            Ok(v) => Ok(v@),
            Err(f) => Err(f@),
        },
        env,
    }
}

/// An evaluation that ends with a value.
pub open spec fn done(env: EnvModel, value: Value) -> Outcome {
    Outcome { result: Ok(value), env }
}

/// An evaluation that ends with an error at `span`.
pub open spec fn fail(env: EnvModel, error: ErrorModel, span: Span) -> Outcome {
    Outcome { result: Err(FailureModel { error, span }), env }
}

/// The operator that a symbol names.
pub open spec fn operator_named(name: Seq<char>) -> Option<Operator> {
    if name == "canvas"@ {
        Some(Operator::Canvas)
    } else if name == "img-load"@ {
        Some(Operator::ImgLoad)
    } else if name == "img-render"@ {
        Some(Operator::ImgRender)
    } else if name == "img-resize"@ {
        Some(Operator::ImgResize)
    } else if name == "img-move"@ {
        Some(Operator::ImgMove)
    } else if name == "img-mix"@ {
        Some(Operator::ImgMix)
    } else if name == "eff-blur"@ {
        Some(Operator::EffBlur)
    } else if name == "def"@ {
        Some(Operator::Def)
    } else if name == "->"@ {
        Some(Operator::Thread)
    } else if name == "+"@ {
        Some(Operator::Plus)
    } else if name == "-"@ {
        Some(Operator::Minus)
    } else if name == "*"@ {
        Some(Operator::Times)
    } else if name == "/"@ {
        Some(Operator::Divide)
    } else if name == "%"@ {
        Some(Operator::Modulo)
    } else {
        None
    }
}

/// The name of a kind.
pub open spec fn kind_text(k: Kind) -> Seq<char> {
    match k {
        Kind::Nil => "nil"@,
        Kind::Number => "number"@,
        Kind::Str => "string"@,
        Kind::Sym => "symbol"@,
        Kind::Image => "image"@,
        Kind::List => "list"@,
        Kind::Vector => "vector"@,
        Kind::Quote => "quote"@,
    }
}

/// What the head of an application is called in a report: a symbol by its
/// text and any other node by its kind.
pub open spec fn head_name(head: Expr) -> Seq<char> {
    match head {
        Expr::Sym(s) => s,
        _ => kind_text(kind_of(head)),
    }
}

/// The operator that the head of an application selects.
pub open spec fn head_operator(head: Expr) -> Option<Operator> {
    match head {
        Expr::Sym(s) => operator_named(s),
        _ => None,
    }
}

/// One operand of an operator: its name, the kind that its value must have
/// if any kind is asked of it as soon as it is evaluated, and whether the
/// operator can do without it.
#[derive(Clone, Copy, Debug, PartialEq, Eq, Structural)]
pub struct Operand {
    pub argument: Argument,
    pub kind: Option<Kind>,
    pub required: bool,
}

/// An operand that must be there.
pub open spec fn needs(argument: Argument, kind: Option<Kind>) -> Operand {
    Operand { argument, kind, required: true }
}

/// The operands of an operator, in their order.
pub open spec fn operand_table(op: Operator) -> Seq<Operand> {
    match op {
        Operator::Canvas => seq![needs(Argument::Width, None), needs(Argument::Height, None)],
        Operator::ImgLoad => seq![needs(Argument::Path, Some(Kind::Str))],
        Operator::ImgRender => seq![needs(Argument::Image, Some(Kind::Image))],
        Operator::ImgResize => seq![
            needs(Argument::Image, Some(Kind::Image)),
            needs(Argument::Method, Some(Kind::Sym)),
            needs(Argument::Width, Some(Kind::Number)),
            needs(Argument::Height, Some(Kind::Number)),
        ],
        Operator::ImgMove => seq![
            needs(Argument::Image, Some(Kind::Image)),
            needs(Argument::X, Some(Kind::Number)),
            needs(Argument::Y, Some(Kind::Number)),
            Operand { argument: Argument::Method, kind: Some(Kind::Sym), required: false },
        ],
        Operator::ImgMix => seq![
            needs(Argument::Bottom, Some(Kind::Image)),
            needs(Argument::Top, Some(Kind::Image)),
            needs(Argument::Mode, Some(Kind::Sym)),
        ],
        Operator::EffBlur => seq![
            needs(Argument::Image, Some(Kind::Image)),
            needs(Argument::Radius, Some(Kind::Number)),
        ],
        Operator::Def => seq![needs(Argument::Name, None), needs(Argument::Value, None)],
        Operator::Thread => seq![needs(Argument::First, None)],
        _ => seq![
            needs(Argument::Left, Some(Kind::Number)),
            needs(Argument::Right, Some(Kind::Number)),
        ],
    }
}

/// The first operand that an operator needs and that is not among the
/// `available` operands, looking at the first `upto` entries of the table.
pub open spec fn first_missing(table: Seq<Operand>, available: nat, upto: nat) -> Option<Argument>
    decreases upto,
{
    if upto == 0 {
        None
    } else {
        match first_missing(table, available, (upto - 1) as nat) {
            Some(a) => Some(a),
            None => if upto <= table.len() && table[upto - 1].required && upto > available {
                Some(table[upto - 1].argument)
            } else {
                None
            },
        }
    }
}

/// The smaller of two numbers.
pub open spec fn least(a: nat, b: nat) -> nat {
    if a <= b {
        a
    } else {
        b
    }
}

/// How resizing samples the source.
#[derive(Clone, Copy, Debug, PartialEq, Eq, Structural)]
pub enum ResizeMethod {
    Nearest,
    Bilinear,
}

/// The way of resizing that a symbol names.
pub open spec fn resize_method_named(name: Seq<char>) -> Option<ResizeMethod> {
    if name == "nearest"@ || name == "nearest-neighbor"@ || name == "nearest-neighbour"@ || name
        == "nn"@ {
        Some(ResizeMethod::Nearest)
    } else if name == "bilinear"@ || name == "b"@ {
        Some(ResizeMethod::Bilinear)
    } else {
        None
    }
}

/// How the offsets of a translation are read: `Some(false)` for pixels,
/// `Some(true)` for fractions of the size of the image.
pub open spec fn move_method_named(name: Seq<char>) -> Option<bool> {
    if name == "pixel"@ || name == "pixels"@ || name == "px"@ {
        Some(false)
    } else if name == "frac"@ || name == "fract"@ || name == "fraction"@ || name == "fractions"@ {
        Some(true)
    } else {
        None
    }
}

/// The blend mode that a symbol names.
pub open spec fn blend_mode_named(name: Seq<char>) -> Option<BlendMode> {
    if name == "normal"@ {
        Some(BlendMode::Normal)
    } else if name == "multiply"@ {
        Some(BlendMode::Multiply)
    } else if name == "screen"@ {
        Some(BlendMode::Screen)
    } else if name == "overlay"@ {
        Some(BlendMode::Overlay)
    } else {
        None
    }
}

/// A number as a size: truncated toward zero, and held between zero and the
/// largest size.
pub open spec fn as_size(n: Double) -> nat {
    truncated(n, 0, usize::MAX as int) as nat
}

/// A report that an operand has the wrong kind.
pub open spec fn mismatch(
    env: EnvModel,
    expected: Kind,
    actual: Value,
    argument: Argument,
    span: Span,
) -> Outcome {
    fail(env, ErrorModel::TypeMismatch { expected, actual: value_kind(actual), argument }, span)
}

/// `canvas`: a new, fully transparent canvas of the given size in place of
/// the canvas before.
pub open spec fn apply_canvas(width: Value, height: Value, env: EnvModel, span: Span) -> Outcome {
    match width {
        Value::Number(w) => match height {
            Value::Number(h) => if shape_fits(as_size(h) as usize, as_size(w) as usize) {
                done(EnvModel { canvas: Some(Raster::blank(as_size(w), as_size(h))), ..env }, Value::Nil)
            } else {
                fail(env, ErrorModel::ImageTooLarge, span)
            },
            _ => mismatch(env, Kind::Number, height, Argument::Height, span),
        },
        _ => mismatch(env, Kind::Number, width, Argument::Width, span),
    }
}

/// `img-load`: the image that was supplied for the path.
pub open spec fn apply_load(
    path: Value,
    env: EnvModel,
    assets: AssetsModel,
    span: Span,
) -> Outcome {
    match path {
        Value::Str(p) => if assets.images.contains_key(p) {
            match assets.images[p] {
                Ok(image) => done(env, Value::Image(image)),
                Err(cause) => fail(env, ErrorModel::IOError { path: p, cause }, span),
            }
        } else {
            fail(env, ErrorModel::ImageNotSupplied(p), span)
        },
        _ => mismatch(env, Kind::Str, path, Argument::Path, span),
    }
}

/// `img-render`: the image composited over the canvas in normal mode.
pub open spec fn apply_render(image: Value, env: EnvModel, span: Span) -> Outcome {
    match image {
        Value::Image(top) => match env.canvas {
            Some(canvas) => done(
                EnvModel { canvas: Some(blend_rasters(canvas, top, BlendMode::Normal)), ..env },
                Value::Nil,
            ),
            None => fail(env, ErrorModel::NoCanvas, span),
        },
        _ => mismatch(env, Kind::Image, image, Argument::Image, span),
    }
}

/// `img-resize`: the image resized by the named method.
pub open spec fn apply_resize(
    image: Value,
    method: Value,
    width: Value,
    height: Value,
    env: EnvModel,
    span: Span,
) -> Outcome {
    match (image, method, width, height) {
        (Value::Image(src), Value::Sym(name), Value::Number(w), Value::Number(h)) => match resize_method_named(name) {
            None => fail(env, ErrorModel::UnknownMethod(name), span),
            Some(m) => if !shape_fits(as_size(h) as usize, as_size(w) as usize) {
                fail(env, ErrorModel::ImageTooLarge, span)
            } else {
                match m {
                    ResizeMethod::Nearest => done(env, Value::Image(resized_nearest(src, as_size(w), as_size(h)))),
                    ResizeMethod::Bilinear => done(env, Value::Image(resized_bilinear(src, as_size(w), as_size(h)))),
                }
            },
        },
        (Value::Image(_), Value::Sym(_), Value::Number(_), _) => mismatch(env, Kind::Number, height, Argument::Height, span),
        (Value::Image(_), Value::Sym(_), _, _) => mismatch(env, Kind::Number, width, Argument::Width, span),
        (Value::Image(_), _, _, _) => mismatch(env, Kind::Sym, method, Argument::Method, span),
        _ => mismatch(env, Kind::Image, image, Argument::Image, span),
    }
}

/// `img-move`: the image translated by pixels or by fractions of its size.
pub open spec fn apply_move(
    image: Value,
    x: Value,
    y: Value,
    method: Value,
    env: EnvModel,
    span: Span,
) -> Outcome {
    match (image, x, y, method) {
        (Value::Image(src), Value::Number(dx), Value::Number(dy), Value::Sym(name)) => match move_method_named(name) {
            None => fail(env, ErrorModel::UnknownMethod(name), span),
            Some(fract) => {
                let ox = shift_offset(dx, src.width, fract);
                let oy = shift_offset(dy, src.height, fract);
                if shift_fits(src, ox, oy) {
                    done(env, Value::Image(shifted(src, ox, oy)))
                } else {
                    fail(env, ErrorModel::ImageTooLarge, span)
                }
            },
        },
        (Value::Image(_), Value::Number(_), Value::Number(_), _) => mismatch(env, Kind::Sym, method, Argument::Method, span),
        (Value::Image(_), Value::Number(_), _, _) => mismatch(env, Kind::Number, y, Argument::Y, span),
        (Value::Image(_), _, _, _) => mismatch(env, Kind::Number, x, Argument::X, span),
        _ => mismatch(env, Kind::Image, image, Argument::Image, span),
    }
}

/// `img-mix`: the top image composited over the bottom one in the named
/// mode, inside the rectangle that both cover.
pub open spec fn apply_mix(
    bottom: Value,
    top: Value,
    mode: Value,
    env: EnvModel,
    span: Span,
) -> Outcome {
    match (bottom, top, mode) {
        (Value::Image(below), Value::Image(above), Value::Sym(name)) => match blend_mode_named(name) {
            None => fail(env, ErrorModel::UnknownMethod(name), span),
            Some(m) => done(env, Value::Image(mix_rasters(below, above, m))),
        },
        (Value::Image(_), Value::Image(_), _) => mismatch(env, Kind::Sym, mode, Argument::Mode, span),
        (Value::Image(_), _, _) => mismatch(env, Kind::Image, top, Argument::Top, span),
        _ => mismatch(env, Kind::Image, bottom, Argument::Bottom, span),
    }
}

/// `eff-blur`: the image blurred with the kernel that was supplied for the
/// radius. The radius 0 leaves the image as it is and needs no kernel.
pub open spec fn apply_blur(
    image: Value,
    radius: Value,
    env: EnvModel,
    assets: AssetsModel,
    span: Span,
) -> Outcome {
    match (image, radius) {
        (Value::Image(src), Value::Number(r)) => if below_zero(r) {
            fail(env, ErrorModel::NegativeBlurRadius, span)
        } else if as_size(r) == 0 {
            done(env, Value::Image(src))
        } else if assets.kernels.contains_key(as_size(r)) {
            done(env, Value::Image(blurred(src, as_size(r), assets.kernels[as_size(r)])))
        } else {
            fail(env, ErrorModel::KernelNotSupplied(as_size(r)), span)
        },
        (Value::Image(_), _) => mismatch(env, Kind::Number, radius, Argument::Radius, span),
        _ => mismatch(env, Kind::Image, image, Argument::Image, span),
    }
}

/// The arithmetic operators. A division and a remainder by zero fail.
pub open spec fn apply_arithmetic(
    op: Operator,
    left: Value,
    right: Value,
    env: EnvModel,
    span: Span,
) -> Outcome {
    match (left, right) {
        (Value::Number(a), Value::Number(b)) => match op {
            Operator::Plus => done(env, Value::Number(sum(a, b))),
            Operator::Minus => done(env, Value::Number(difference(a, b))),
            Operator::Times => done(env, Value::Number(product(a, b))),
            Operator::Divide => if is_zero(b) {
                fail(env, ErrorModel::DivisionByZero, span)
            } else {
                done(env, Value::Number(quotient(a, b)))
            },
            _ => if is_zero(b) {
                fail(env, ErrorModel::DivisionByZero, span)
            } else {
                done(env, Value::Number(remainder(a, b)))
            },
        },
        (Value::Number(_), _) => mismatch(env, Kind::Number, right, Argument::Right, span),
        _ => mismatch(env, Kind::Number, left, Argument::Left, span),
    }
}

/// The value at the place `i`, or nil where there is none.
pub open spec fn value_at(values: Seq<Value>, i: int) -> Value {
    if 0 <= i < values.len() {
        values[i]
    } else {
        Value::Nil
    }
}

/// An operator applied to the values of its operands.
pub open spec fn apply(
    op: Operator,
    values: Seq<Value>,
    env: EnvModel,
    assets: AssetsModel,
    span: Span,
) -> Outcome {
    match op {
        Operator::Canvas => apply_canvas(value_at(values, 0), value_at(values, 1), env, span),
        Operator::ImgLoad => apply_load(value_at(values, 0), env, assets, span),
        Operator::ImgRender => apply_render(value_at(values, 0), env, span),
        Operator::ImgResize => apply_resize(
            value_at(values, 0),
            value_at(values, 1),
            value_at(values, 2),
            value_at(values, 3),
            env,
            span,
        ),
        Operator::ImgMove => apply_move(
            value_at(values, 0),
            value_at(values, 1),
            value_at(values, 2),
            if values.len() >= 4 {
                values[3]
            } else {
                Value::Sym("pixels"@)
            },
            env,
            span,
        ),
        Operator::ImgMix => apply_mix(value_at(values, 0), value_at(values, 1), value_at(values, 2), env, span),
        Operator::EffBlur => apply_blur(value_at(values, 0), value_at(values, 1), env, assets, span),
        Operator::Def => done(env, Value::Nil),
        Operator::Thread => done(env, value_at(values, 0)),
        _ => apply_arithmetic(op, value_at(values, 0), value_at(values, 1), env, span),
    }
}

/// One step of a pipeline: the node built so far becomes the first operand of
/// the step. A symbol `f` gives `(f node)`, a list `(f args..)` gives `(f node
/// args..)`; the new node has the place of the step.
pub open spec fn thread_step(
    node: (Expr, Span),
    step: (Expr, Span),
) -> Result<(Expr, Span), ErrorModel> {
    match step.0 {
        Expr::Sym(_) => Ok((Expr::Cons(seq![step, node]), step.1)),
        Expr::Cons(xs) => if xs.len() == 0 {
            Err(ErrorModel::EmptyPipelineFunction)
        } else {
            Ok((Expr::Cons(seq![xs[0], node] + xs.subrange(1, xs.len() as int)), step.1))
        },
        _ => Err(ErrorModel::UnsupportedPipelineStep),
    }
}

/// The node that the first `count` steps of a pipeline build from `first`,
/// or the error of the first step that cannot be taken.
pub open spec fn threaded(
    first: (Expr, Span),
    steps: Seq<(Expr, Span)>,
    count: nat,
) -> Result<(Expr, Span), ErrorModel>
    decreases count,
{
    if count == 0 {
        Ok(first)
    } else {
        match threaded(first, steps, (count - 1) as nat) {
            Err(e) => Err(e),
            Ok(node) => if count <= steps.len() {
                thread_step(node, steps[count - 1])
            } else {
                Ok(node)
            },
        }
    }
}

/// A step adds its own weight to the weight of the node.
pub proof fn lemma_thread_step_weight(node: (Expr, Span), step: (Expr, Span))
    ensures
        thread_step(node, step) matches Ok(next) ==> weight(next.0) == weight(node.0) + weight(step.0),
{
    match step.0 {
        Expr::Sym(_) => {
            let s = seq![step, node];
            assert(s =~= Seq::empty().push(step).push(node));
            lemma_weights_push(Seq::empty().push(step), node);
            lemma_weights_push(Seq::empty(), step);
            assert(weights(Seq::<(Expr, Span)>::empty()) == 0);
        },
        Expr::Cons(xs) => {
            if xs.len() > 0 {
                let head = seq![xs[0], node];
                let tail = xs.subrange(1, xs.len() as int);
                assert(head =~= Seq::empty().push(xs[0]).push(node));
                lemma_weights_push(Seq::empty().push(xs[0]), node);
                lemma_weights_push(Seq::empty(), xs[0]);
                assert(weights(Seq::<(Expr, Span)>::empty()) == 0);
                lemma_weights_add(head, tail);
                let one = seq![xs[0]];
                assert(one =~= Seq::empty().push(xs[0]));
                lemma_weights_add(one, tail);
                assert(one + tail =~= xs);
            }
        },
        _ => {},
    }
}

/// A pipeline builds a node that weighs what its first node and the steps
/// taken weigh together.
pub proof fn lemma_threaded_weight(first: (Expr, Span), steps: Seq<(Expr, Span)>, count: nat)
    requires
        count <= steps.len(),
    ensures
        threaded(first, steps, count) matches Ok(node) ==> weight(node.0) == weight(first.0) + weights(
            steps.subrange(0, count as int),
        ),
    decreases count,
{
    if count == 0 {
        assert(steps.subrange(0, 0) =~= Seq::empty());
    } else {
        lemma_threaded_weight(first, steps, (count - 1) as nat);
        match threaded(first, steps, (count - 1) as nat) {
            Err(_) => {},
            Ok(node) => {
                lemma_thread_step_weight(node, steps[count - 1]);
                assert(steps.subrange(0, count as int).drop_last() =~= steps.subrange(0, count - 1));
            },
        }
    }
}

/// A list whose head is a symbol weighs more than the rest of it.
pub proof fn lemma_weights_split(xs: Seq<(Expr, Span)>)
    requires
        xs.len() >= 2,
    ensures
        weights(xs) == weight(xs[0].0) + weight(xs[1].0) + weights(xs.subrange(2, xs.len() as int)),
{
    let head = seq![xs[0], xs[1]];
    let tail = xs.subrange(2, xs.len() as int);
    assert(head =~= Seq::empty().push(xs[0]).push(xs[1]));
    lemma_weights_push(Seq::empty().push(xs[0]), xs[1]);
    lemma_weights_push(Seq::empty(), xs[0]);
    assert(weights(Seq::<(Expr, Span)>::empty()) == 0);
    lemma_weights_add(head, tail);
    assert(head + tail =~= xs);
}

/// The values of the operands of an application, as far as they were
/// evaluated, and the environment after them.
pub struct Gathered {
    pub values: Result<Seq<Value>, FailureModel>,
    pub env: EnvModel,
}

/// The first `count` operands of the application `xs` evaluated from left to
/// right. Each is held against the kind that the table asks of it as soon as
/// it has its value; the first failure ends the evaluation.
pub open spec fn gather(
    env: EnvModel,
    assets: AssetsModel,
    xs: Seq<(Expr, Span)>,
    table: Seq<Operand>,
    span: Span,
    count: nat,
) -> Gathered
    decreases weights(xs), xs, count,
{
    if count == 0 {
        Gathered { values: Ok(Seq::empty()), env }
    } else {
        let before = gather(env, assets, xs, table, span, (count - 1) as nat);
        match before.values {
            Err(_) => before,
            Ok(values) => if count < xs.len() && count <= table.len() {
                proof {
                    lemma_weights_bound(xs, count as int);
                }
                let o = evaluate(before.env, assets, xs[count as int]);
                match o.result {
                    Err(f) => Gathered { values: Err(f), env: o.env },
                    Ok(v) => match table[count - 1].kind {
                        Some(k) => if value_kind(v) != k {
                            Gathered {
                                values: Err(
                                    FailureModel {
                                        error: ErrorModel::TypeMismatch {
                                            expected: k,
                                            actual: value_kind(v),
                                            argument: table[count - 1].argument,
                                        },
                                        span,
                                    },
                                ),
                                env: o.env,
                            }
                        } else {
                            Gathered { values: Ok(values.push(v)), env: o.env }
                        },
                        None => Gathered { values: Ok(values.push(v)), env: o.env },
                    },
                }
            } else {
                before
            },
        }
    }
}

/// The value of a node in an environment, and the environment after the
/// evaluation.
pub open spec fn evaluate(env: EnvModel, assets: AssetsModel, node: (Expr, Span)) -> Outcome
    decreases weight(node.0), node.0, 0nat,
{
    let span = node.1;
    match node.0 {
        Expr::Nil => done(env, Value::Nil),
        Expr::Int(n) => done(env, Value::Number(from_whole(n))),
        Expr::Float(x) => done(env, Value::Number(x)),
        Expr::Str(s) => done(env, Value::Str(s)),
        Expr::Sym(s) => if env.vars.contains_key(s) {
            done(env, env.vars[s])
        } else {
            fail(env, ErrorModel::UndefinedSymbol(s), span)
        },
        Expr::Quote(b) => match (*b).0 {
            Expr::Sym(s) => done(env, Value::Sym(s)),
            _ => fail(env, ErrorModel::Unsupported(Kind::Quote), span),
        },
        Expr::Vec(_) => fail(env, ErrorModel::Unsupported(Kind::Vector), span),
        Expr::Cons(xs) => if xs.len() == 0 {
            fail(env, ErrorModel::EmptyApplication, span)
        } else {
            match head_operator(xs[0].0) {
                None => fail(env, ErrorModel::UnknownOperator(head_name(xs[0].0)), span),
                Some(op) => {
                    let table = operand_table(op);
                    match first_missing(table, (xs.len() - 1) as nat, table.len()) {
                        Some(argument) => fail(env, ErrorModel::MissingArgument { operator: op, argument }, span),
                        None => match op {
                            Operator::Def => if xs.len() >= 3 {
                                proof {
                                    lemma_weights_bound(xs, 2);
                                }
                                let o = evaluate(env, assets, xs[2]);
                                match o.result {
                                    Err(_) => o,
                                    Ok(v) => match xs[1].0 {
                                        Expr::Sym(name) => done(
                                            EnvModel { vars: o.env.vars.insert(name, v), ..o.env },
                                            Value::Nil,
                                        ),
                                        other => fail(
                                            o.env,
                                            ErrorModel::TypeMismatch {
                                                expected: Kind::Sym,
                                                actual: kind_of(other),
                                                argument: Argument::Name,
                                            },
                                            span,
                                        ),
                                    },
                                }
                            } else {
                                done(env, Value::Nil)
                            },
                            Operator::Thread => if xs.len() < 2 {
                                done(env, Value::Nil)
                            } else if xs.len() == 2 {
                                proof {
                                    lemma_weights_bound(xs, 1);
                                }
                                evaluate(env, assets, xs[1])
                            } else {
                                let steps = xs.subrange(2, xs.len() as int);
                                match threaded(xs[1], steps, steps.len()) {
                                    Err(e) => fail(env, e, span),
                                    Ok(built) => {
                                        proof {
                                            lemma_threaded_weight(xs[1], steps, steps.len());
                                            assert(steps.subrange(0, steps.len() as int) =~= steps);
                                            lemma_weights_split(xs);
                                        }
                                        evaluate(env, assets, built)
                                    },
                                }
                            },
                            _ => {
                                let g = gather(
                                    env,
                                    assets,
                                    xs,
                                    table,
                                    span,
                                    least(table.len(), (xs.len() - 1) as nat),
                                );
                                match g.values {
                                    Err(f) => Outcome { result: Err(f), env: g.env },
                                    Ok(values) => apply(op, values, g.env, assets, span),
                                }
                            },
                        },
                    }
                },
            }
        },
    }
}

/// How a run ends: with the first failure or with none, and with the
/// environment as the run left it.
pub struct Finished {
    pub failure: Option<FailureModel>,
    pub env: EnvModel,
}

/// The first `count` nodes of a program evaluated in their order against one
/// environment. The first failure ends the run; what was done before it stays
/// done.
pub open spec fn run(
    env: EnvModel,
    assets: AssetsModel,
    nodes: Seq<(Expr, Span)>,
    count: nat,
) -> Finished
    decreases count,
{
    if count == 0 {
        Finished { failure: None, env }
    } else {
        let before = run(env, assets, nodes, (count - 1) as nat);
        if before.failure is Some || count > nodes.len() {
            before
        } else {
            let o = evaluate(before.env, assets, nodes[count - 1]);
            Finished {
                failure: match o.result {
                    Ok(_) => None,
                    Err(f) => Some(f),
                },
                env: o.env,
            }
        }
    }
}

/// Once a node has failed, the nodes after it are not evaluated.
pub proof fn lemma_run_stops(env: EnvModel, assets: AssetsModel, nodes: Seq<(Expr, Span)>, at: nat, count: nat)
    requires
        at <= count,
        run(env, assets, nodes, at).failure is Some,
    ensures
        run(env, assets, nodes, count) == run(env, assets, nodes, at),
    decreases count,
{
    if at < count {
        lemma_run_stops(env, assets, nodes, at, (count - 1) as nat);
    }
}

} // verus!
