//! The built-in operators, applied to the values of their operands.

use crate::ast::{Kind, Span};
use crate::eval::assets::Assets;
use crate::eval::error::{Argument, EvalError, Failure, Operator};
use crate::eval::semantics;
use crate::eval::semantics::{needs, outcome_of, Operand, ResizeMethod};
use crate::eval::{DataType, Env};
use crate::image::blend::BlendMode;
use crate::image::Image;
use crate::number::Number;
use vstd::prelude::*;

verus! {

/// Whether two texts are the same.
pub fn same_text(a: &str, b: &str) -> (r: bool)
    ensures
        r == (a@ == b@),
{
    a.to_owned() == b.to_owned()
}

impl Operator {
    /// The operator that a symbol names.
    pub fn parse(name: &str) -> (r: Option<Operator>)
        ensures
            r == semantics::operator_named(name@),
    {
        if same_text(name, "canvas") {
            Some(Operator::Canvas)
        } else if same_text(name, "img-load") {
            Some(Operator::ImgLoad)
        } else if same_text(name, "img-render") {
            Some(Operator::ImgRender)
        } else if same_text(name, "img-resize") {
            Some(Operator::ImgResize)
        } else if same_text(name, "img-move") {
            Some(Operator::ImgMove)
        } else if same_text(name, "img-mix") {
            Some(Operator::ImgMix)
        } else if same_text(name, "eff-blur") {
            Some(Operator::EffBlur)
        } else if same_text(name, "def") {
            Some(Operator::Def)
        } else if same_text(name, "->") {
            Some(Operator::Thread)
        } else if same_text(name, "+") {
            Some(Operator::Plus)
        } else if same_text(name, "-") {
            Some(Operator::Minus)
        } else if same_text(name, "*") {
            Some(Operator::Times)
        } else if same_text(name, "/") {
            Some(Operator::Divide)
        } else if same_text(name, "%") {
            Some(Operator::Modulo)
        } else {
            None
        }
    }

    /// The operands of the operator, in their order.
    pub fn operands(&self) -> (table: Vec<Operand>)
        ensures
            table@ == semantics::operand_table(*self),
    {
        let table = match self {
            Operator::Canvas => vec![required(Argument::Width, None), required(Argument::Height, None)],
            Operator::ImgLoad => vec![required(Argument::Path, Some(Kind::Str))],
            Operator::ImgRender => vec![required(Argument::Image, Some(Kind::Image))],
            Operator::ImgResize => vec![
                required(Argument::Image, Some(Kind::Image)),
                required(Argument::Method, Some(Kind::Sym)),
                required(Argument::Width, Some(Kind::Number)),
                required(Argument::Height, Some(Kind::Number)),
            ],
            Operator::ImgMove => vec![
                required(Argument::Image, Some(Kind::Image)),
                required(Argument::X, Some(Kind::Number)),
                required(Argument::Y, Some(Kind::Number)),
                Operand { argument: Argument::Method, kind: Some(Kind::Sym), required: false },
            ],
            Operator::ImgMix => vec![
                required(Argument::Bottom, Some(Kind::Image)),
                required(Argument::Top, Some(Kind::Image)),
                required(Argument::Mode, Some(Kind::Sym)),
            ],
            Operator::EffBlur => vec![
                required(Argument::Image, Some(Kind::Image)),
                required(Argument::Radius, Some(Kind::Number)),
            ],
            Operator::Def => vec![required(Argument::Name, None), required(Argument::Value, None)],
            Operator::Thread => vec![required(Argument::First, None)],
            _ => vec![
                required(Argument::Left, Some(Kind::Number)),
                required(Argument::Right, Some(Kind::Number)),
            ],
        };
        proof {
            assert(table@ =~= semantics::operand_table(*self));
        }
        table
    }
}

/// An operand that must be there.
fn required(argument: Argument, kind: Option<Kind>) -> (o: Operand)
    ensures
        o == needs(argument, kind),
{
    Operand { argument, kind, required: true }
}

/// The first operand that the table needs and that is not among the
/// `available` operands.
pub fn first_missing(table: &Vec<Operand>, available: usize) -> (r: Option<Argument>)
    ensures
        r == semantics::first_missing(table@, available as nat, table@.len()),
{
    let mut i: usize = 0;
    while i < table.len()
        invariant
            i <= table.len(),
            semantics::first_missing(table@, available as nat, i as nat) is None,
        decreases table.len() - i,
    {
        if table[i].required && i + 1 > available {
            proof {
                lemma_first_missing_stays(table@, available as nat, (i + 1) as nat, table@.len());
            }
            return Some(table[i].argument);
        }
        i += 1;
    }
    None
}

/// Once a missing operand is found, looking further finds the same one.
proof fn lemma_first_missing_stays(table: Seq<Operand>, available: nat, found: nat, upto: nat)
    requires
        found <= upto,
        semantics::first_missing(table, available, found) is Some,
    ensures
        semantics::first_missing(table, available, upto) == semantics::first_missing(table, available, found),
    decreases upto,
{
    if found < upto {
        lemma_first_missing_stays(table, available, found, (upto - 1) as nat);
    }
}

/// The way of resizing that a symbol names.
pub fn resize_method(name: &str) -> (r: Option<ResizeMethod>)
    ensures
        r == semantics::resize_method_named(name@),
{
    if same_text(name, "nearest") || same_text(name, "nearest-neighbor") || same_text(
        name,
        "nearest-neighbour",
    ) || same_text(name, "nn") {
        Some(ResizeMethod::Nearest)
    } else if same_text(name, "bilinear") || same_text(name, "b") {
        Some(ResizeMethod::Bilinear)
    } else {
        None
    }
}

/// How the offsets of a translation are read: `Some(false)` for pixels,
/// `Some(true)` for fractions of the size of the image.
pub fn move_method(name: &str) -> (r: Option<bool>)
    ensures
        r == semantics::move_method_named(name@),
{
    if same_text(name, "pixel") || same_text(name, "pixels") || same_text(name, "px") {
        Some(false)
    } else if same_text(name, "frac") || same_text(name, "fract") || same_text(name, "fraction")
        || same_text(name, "fractions") {
        Some(true)
    } else {
        None
    }
}

/// The blend mode that a symbol names.
pub fn blend_mode(name: &str) -> (r: Option<BlendMode>)
    ensures
        r == semantics::blend_mode_named(name@),
{
    if same_text(name, "normal") {
        Some(BlendMode::Normal)
    } else if same_text(name, "multiply") {
        Some(BlendMode::Multiply)
    } else if same_text(name, "screen") {
        Some(BlendMode::Screen)
    } else if same_text(name, "overlay") {
        Some(BlendMode::Overlay)
    } else {
        None
    }
}

/// The name of a kind.
pub fn kind_name(k: Kind) -> (name: &'static str)
    ensures
        name@ == semantics::kind_text(k),
{
    match k {
        Kind::Nil => "nil",
        Kind::Number => "number",
        Kind::Str => "string",
        Kind::Sym => "symbol",
        Kind::Image => "image",
        Kind::List => "list",
        Kind::Vector => "vector",
        Kind::Quote => "quote",
    }
}

/// A failure without a value.
fn failed(error: EvalError, span: Span) -> (r: Result<DataType, Failure>)
    ensures
        r == Err::<DataType, Failure>(Failure { error, span }),
{
    Err(Failure { error, span })
}

/// A report that an operand has the wrong kind.
fn wrong_kind(expected: Kind, actual: &DataType, argument: Argument, span: Span) -> (r: Result<
    DataType,
    Failure,
>)
    ensures
        r == Err::<DataType, Failure>(
            Failure {
                error: EvalError::TypeMismatch { expected, actual: crate::eval::value_kind(actual@), argument },
                span,
            },
        ),
{
    Err(Failure { error: EvalError::TypeMismatch { expected, actual: actual.kind(), argument }, span })
}

/// `canvas`: makes a new, fully transparent canvas of the given size, in
/// place of the canvas before.
pub fn canvas(env: &mut Env, width: &DataType, height: &DataType, span: Span) -> (r: Result<
    DataType,
    Failure,
>)
    ensures
        outcome_of(r, final(env)@) == semantics::apply_canvas(width@, height@, old(env)@, span),
{
    match width {
        DataType::Number(w) => match height {
            DataType::Number(h) => {
                let columns = w.to_usize();
                let rows = h.to_usize();
                if Image::fits(columns, rows) {
                    env.set_canvas(Image::new(columns, rows));
                    Ok(DataType::Nil)
                } else {
                    failed(EvalError::ImageTooLarge, span)
                }
            },
            _ => wrong_kind(Kind::Number, height, Argument::Height, span),
        },
        _ => wrong_kind(Kind::Number, width, Argument::Width, span),
    }
}

/// `img-load`: the image that was supplied for the path.
pub fn load(
    env: &Env,
    assets: &Assets,
    path: &DataType,
    span: Span,
) -> (r: Result<DataType, Failure>)
    ensures
        outcome_of(r, env@) == semantics::apply_load(path@, env@, assets@, span),
{
    match path {
        DataType::Str(p) => match assets.image(p.as_str()) {
            Some(found) => match found {
                Ok(image) => Ok(DataType::Image(image.clone())),
                Err(cause) => failed(EvalError::IOError { path: p.clone(), cause: cause.clone() }, span),
            },
            None => failed(EvalError::ImageNotSupplied(p.clone()), span),
        },
        _ => wrong_kind(Kind::Str, path, Argument::Path, span),
    }
}

/// `img-render`: composites the image over the canvas in normal mode.
pub fn render(env: &mut Env, image: &DataType, span: Span) -> (r: Result<DataType, Failure>)
    ensures
        outcome_of(r, final(env)@) == semantics::apply_render(image@, old(env)@, span),
{
    match image {
        DataType::Image(top) => match env.canvas_mut() {
            Some(canvas) => {
                canvas.blend_images(top, BlendMode::Normal);
                Ok(DataType::Nil)
            },
            None => failed(EvalError::NoCanvas, span),
        },
        _ => wrong_kind(Kind::Image, image, Argument::Image, span),
    }
}

/// `img-resize`: the image resized by the named method.
pub fn resize(
    env: &Env,
    image: &DataType,
    method: &DataType,
    width: &DataType,
    height: &DataType,
    span: Span,
) -> (r: Result<DataType, Failure>)
    ensures
        outcome_of(r, env@) == semantics::apply_resize(image@, method@, width@, height@, env@, span),
{
    match image {
        DataType::Image(src) => match method {
            DataType::Sym(name) => match width {
                DataType::Number(w) => match height {
                    DataType::Number(h) => match resize_method(name.as_str()) {
                        None => failed(EvalError::UnknownMethod(name.clone()), span),
                        Some(m) => {
                            let columns = w.to_usize();
                            let rows = h.to_usize();
                            if !Image::fits(columns, rows) {
                                return failed(EvalError::ImageTooLarge, span);
                            }
                            let mut resized = src.clone();
                            match m {
                                ResizeMethod::Nearest => resized.resize_nearest_neighbour(columns, rows),
                                ResizeMethod::Bilinear => resized.resize_bilinear(columns, rows),
                            }
                            Ok(DataType::Image(resized))
                        },
                    },
                    _ => wrong_kind(Kind::Number, height, Argument::Height, span),
                },
                _ => wrong_kind(Kind::Number, width, Argument::Width, span),
            },
            _ => wrong_kind(Kind::Sym, method, Argument::Method, span),
        },
        _ => wrong_kind(Kind::Image, image, Argument::Image, span),
    }
}

/// `img-move`: the image translated by pixels or by fractions of its size.
pub fn translate(
    env: &Env,
    image: &DataType,
    x: &DataType,
    y: &DataType,
    method: &DataType,
    span: Span,
) -> (r: Result<DataType, Failure>)
    ensures
        outcome_of(r, env@) == semantics::apply_move(image@, x@, y@, method@, env@, span),
{
    match image {
        DataType::Image(src) => match x {
            DataType::Number(dx) => match y {
                DataType::Number(dy) => match method {
                    DataType::Sym(name) => match move_method(name.as_str()) {
                        None => failed(EvalError::UnknownMethod(name.clone()), span),
                        Some(fract) => {
                            let (ox, oy) = src.shift_offsets(*dx, *dy, fract);
                            if !src.can_shift_by(ox, oy) {
                                return failed(EvalError::ImageTooLarge, span);
                            }
                            let mut moved = src.clone();
                            moved.shift_by(ox, oy);
                            Ok(DataType::Image(moved))
                        },
                    },
                    _ => wrong_kind(Kind::Sym, method, Argument::Method, span),
                },
                _ => wrong_kind(Kind::Number, y, Argument::Y, span),
            },
            _ => wrong_kind(Kind::Number, x, Argument::X, span),
        },
        _ => wrong_kind(Kind::Image, image, Argument::Image, span),
    }
}

/// `img-mix`: the top image composited over the bottom one in the named
/// mode, inside the rectangle that both cover.
pub fn mix(env: &Env, bottom: &DataType, top: &DataType, mode: &DataType, span: Span) -> (r: Result<
    DataType,
    Failure,
>)
    ensures
        outcome_of(r, env@) == semantics::apply_mix(bottom@, top@, mode@, env@, span),
{
    match bottom {
        DataType::Image(below) => match top {
            DataType::Image(above) => match mode {
                DataType::Sym(name) => match blend_mode(name.as_str()) {
                    None => failed(EvalError::UnknownMethod(name.clone()), span),
                    Some(m) => Ok(DataType::Image(below.mix(above, m))),
                },
                _ => wrong_kind(Kind::Sym, mode, Argument::Mode, span),
            },
            _ => wrong_kind(Kind::Image, top, Argument::Top, span),
        },
        _ => wrong_kind(Kind::Image, bottom, Argument::Bottom, span),
    }
}

/// `eff-blur`: the image blurred with the kernel that was supplied for the
/// radius.
pub fn blur(env: &Env, assets: &Assets, image: &DataType, radius: &DataType, span: Span) -> (r: Result<
    DataType,
    Failure,
>)
    ensures
        outcome_of(r, env@) == semantics::apply_blur(image@, radius@, env@, assets@, span),
{
    match image {
        DataType::Image(src) => match radius {
            DataType::Number(r) => {
                if r.is_negative() {
                    return failed(EvalError::NegativeBlurRadius, span);
                }
                let reach = r.to_usize();
                if reach == 0 {
                    return Ok(DataType::Image(src.clone()));
                }
                match assets.kernel(reach) {
                    Some(kernel) => {
                        let mut blurred = src.clone();
                        blurred.blur(reach, kernel);
                        Ok(DataType::Image(blurred))
                    },
                    None => failed(EvalError::KernelNotSupplied(reach), span),
                }
            },
            _ => wrong_kind(Kind::Number, radius, Argument::Radius, span),
        },
        _ => wrong_kind(Kind::Image, image, Argument::Image, span),
    }
}

/// The arithmetic operators.
pub fn arithmetic(env: &Env, op: Operator, left: &DataType, right: &DataType, span: Span) -> (r: Result<
    DataType,
    Failure,
>)
    ensures
        outcome_of(r, env@) == semantics::apply_arithmetic(op, left@, right@, env@, span),
{
    match left {
        DataType::Number(a) => match right {
            DataType::Number(b) => match op {
                Operator::Plus => Ok(DataType::Number(a.plus(*b))),
                Operator::Minus => Ok(DataType::Number(a.minus(*b))),
                Operator::Times => Ok(DataType::Number(a.times(*b))),
                Operator::Divide => if b.is_zero() {
                    failed(EvalError::DivisionByZero, span)
                } else {
                    Ok(DataType::Number(a.over(*b)))
                },
                _ => if b.is_zero() {
                    failed(EvalError::DivisionByZero, span)
                } else {
                    Ok(DataType::Number(a.modulo(*b)))
                },
            },
            _ => wrong_kind(Kind::Number, right, Argument::Right, span),
        },
        _ => wrong_kind(Kind::Number, left, Argument::Left, span),
    }
}

/// A value that stands for an operand that was not given.
fn nil() -> (v: DataType)
    ensures
        v@ == crate::eval::Value::Nil,
{
    DataType::Nil
}

/// An operator applied to the values of its operands.
pub fn apply(op: Operator, values: &Vec<DataType>, env: &mut Env, assets: &Assets, span: Span) -> (r: Result<
    DataType,
    Failure,
>)
    ensures
        outcome_of(r, final(env)@) == semantics::apply(op, values_of(values@), old(env)@, assets@, span),
{
    let none = nil();
    let n = values.len();
    let first = if n > 0 { &values[0] } else { &none };
    let second = if n > 1 { &values[1] } else { &none };
    let third = if n > 2 { &values[2] } else { &none };
    let fourth = if n > 3 { &values[3] } else { &none };
    proof {
        assert(first@ == semantics::value_at(values_of(values@), 0));
        assert(second@ == semantics::value_at(values_of(values@), 1));
        assert(third@ == semantics::value_at(values_of(values@), 2));
        assert(fourth@ == semantics::value_at(values_of(values@), 3));
    }
    match op {
        Operator::Canvas => canvas(env, first, second, span),
        Operator::ImgLoad => load(env, assets, first, span),
        Operator::ImgRender => render(env, first, span),
        Operator::ImgResize => resize(env, first, second, third, fourth, span),
        Operator::ImgMove => {
            if n >= 4 {
                translate(env, first, second, third, fourth, span)
            } else {
                let pixels = DataType::Sym("pixels".to_owned());
                translate(env, first, second, third, &pixels, span)
            }
        },
        Operator::ImgMix => mix(env, first, second, third, span),
        Operator::EffBlur => blur(env, assets, first, second, span),
        Operator::Def => Ok(DataType::Nil),
        Operator::Thread => Ok(first.clone()),
        _ => arithmetic(env, op, first, second, span),
    }
}

/// What a list of values is.
pub open spec fn values_of(values: Seq<DataType>) -> Seq<crate::eval::Value> {
    Seq::new(values.len(), |i: int| values[i]@)
}

} // verus!
