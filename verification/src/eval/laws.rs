//! What holds of every evaluation: general facts about the operators and the
//! walk, proved from the semantics.

use crate::ast::{Expr, Span};
use crate::eval::assets::AssetsModel;
use crate::eval::error::{ErrorModel, Operator};
use crate::eval::semantics::{
    apply_arithmetic, apply_blur, apply_canvas, apply_mix, apply_render, apply_resize, as_size,
    blend_mode_named, done, evaluate, fail, first_missing, operand_table, operator_named,
    resize_method_named, thread_step, threaded,
};
use crate::eval::{EnvModel, Value};
use crate::grid::shape_fits;
use crate::image::blend::{lemma_mix_opaque_top, lemma_mix_transparent_top, BlendMode};
use crate::image::resample::{lemma_bilinear_same_size, lemma_nearest_same_size};
use crate::image::Raster;
use crate::number::model::{is_zero, Double};
use vstd::prelude::*;

verus! {

/// A blur with the radius zero gives the image back, pixel for pixel, whatever
/// kernels were supplied.
pub proof fn law_blur_zero(src: Raster, radius: Double, env: EnvModel, assets: AssetsModel, span: Span)
    requires
        is_zero(radius),
    ensures
        apply_blur(Value::Image(src), Value::Number(radius), env, assets, span) == done(
            env,
            Value::Image(src),
        ),
{
    vstd::arithmetic::power2::lemma_pow2_pos(1074);
    assert(0int / (crate::number::model::unit() as int) == 0) by (nonlinear_arith)
        requires
            crate::number::model::unit() > 0,
    ;
}

/// A resize to the size that the image has gives the image back, by either
/// method.
pub proof fn law_resize_same_size(
    src: Raster,
    method: Seq<char>,
    width: Double,
    height: Double,
    env: EnvModel,
    span: Span,
)
    requires
        src.wf(),
        resize_method_named(method) is Some,
        as_size(width) == src.width,
        as_size(height) == src.height,
        shape_fits(src.height as usize, src.width as usize),
    ensures
        apply_resize(
            Value::Image(src),
            Value::Sym(method),
            Value::Number(width),
            Value::Number(height),
            env,
            span,
        ) == done(env, Value::Image(src)),
{
    lemma_nearest_same_size(src);
    lemma_bilinear_same_size(src);
}

/// A mix in normal mode with a top image that is fully transparent
/// everywhere gives the bottom image, where the top image covers it.
pub proof fn law_mix_transparent_top(below: Raster, above: Raster, mode: Seq<char>, env: EnvModel, span: Span)
    requires
        below.wf(),
        above.wf(),
        below.width <= above.width,
        below.height <= above.height,
        blend_mode_named(mode) == Some(BlendMode::Normal),
        forall|x: int, y: int| above.contains(x, y) ==> (#[trigger] above.at(x, y)).a == 0,
    ensures
        apply_mix(Value::Image(below), Value::Image(above), Value::Sym(mode), env, span) == done(
            env,
            Value::Image(below),
        ),
{
    lemma_mix_transparent_top(below, above, BlendMode::Normal);
}

/// A mix in normal mode with a top image that is fully opaque everywhere
/// gives the top image, where the bottom image covers it.
pub proof fn law_mix_opaque_top(below: Raster, above: Raster, mode: Seq<char>, env: EnvModel, span: Span)
    requires
        below.wf(),
        above.wf(),
        above.width <= below.width,
        above.height <= below.height,
        blend_mode_named(mode) == Some(BlendMode::Normal),
        forall|x: int, y: int| above.contains(x, y) ==> (#[trigger] above.at(x, y)).a == 255,
    ensures
        apply_mix(Value::Image(below), Value::Image(above), Value::Sym(mode), env, span) == done(
            env,
            Value::Image(above),
        ),
{
    lemma_mix_opaque_top(below, above);
}

/// A rendering before any canvas was made fails, whatever the image, and
/// leaves the environment as it is.
pub proof fn law_render_without_canvas(image: Raster, env: EnvModel, span: Span)
    requires
        env.canvas is None,
    ensures
        apply_render(Value::Image(image), env, span) == fail(env, ErrorModel::NoCanvas, span),
{
}

/// A canvas of a size that fits is made without error whatever canvas there
/// was before, and nothing of the canvas before is left: the new canvas is
/// fully transparent.
pub proof fn law_canvas_replaces(width: Double, height: Double, env: EnvModel, span: Span)
    requires
        shape_fits(as_size(height) as usize, as_size(width) as usize),
    ensures
        apply_canvas(Value::Number(width), Value::Number(height), env, span) == done(
            EnvModel { vars: env.vars, canvas: Some(Raster::blank(as_size(width), as_size(height))) },
            Value::Nil,
        ),
{
}

/// A division and a remainder by zero fail, whatever the dividend.
pub proof fn law_division_by_zero(op: Operator, dividend: Double, divisor: Double, env: EnvModel, span: Span)
    requires
        op == Operator::Divide || op == Operator::Modulo,
        is_zero(divisor),
    ensures
        apply_arithmetic(op, Value::Number(dividend), Value::Number(divisor), env, span) == fail(
            env,
            ErrorModel::DivisionByZero,
            span,
        ),
{
}

/// A symbol that nothing is bound to fails with an error that names exactly
/// that symbol, at the place of the symbol.
pub proof fn law_undefined_symbol(name: Seq<char>, env: EnvModel, assets: AssetsModel, span: Span)
    requires
        !env.vars.contains_key(name),
    ensures
        evaluate(env, assets, (Expr::Sym(name), span)) == fail(env, ErrorModel::UndefinedSymbol(name), span),
{
}

/// A symbol that is bound evaluates to the value it is bound to.
pub proof fn law_defined_symbol(name: Seq<char>, env: EnvModel, assets: AssetsModel, span: Span)
    requires
        env.vars.contains_key(name),
    ensures
        evaluate(env, assets, (Expr::Sym(name), span)) == done(env, env.vars[name]),
{
}

/// The symbol `->` names the pipeline.
pub proof fn lemma_thread_symbol()
    ensures
        operator_named("->"@) == Some(Operator::Thread),
{
    reveal_strlit("->");
    reveal_strlit("canvas");
    reveal_strlit("img-load");
    reveal_strlit("img-render");
    reveal_strlit("img-resize");
    reveal_strlit("img-move");
    reveal_strlit("img-mix");
    reveal_strlit("eff-blur");
    reveal_strlit("def");
    assert("->"@.len() == 2);
    assert("canvas"@.len() == 6);
    assert("img-load"@.len() == 8);
    assert("img-render"@.len() == 10);
    assert("img-resize"@.len() == 10);
    assert("img-move"@.len() == 8);
    assert("img-mix"@.len() == 7);
    assert("eff-blur"@.len() == 8);
    assert("def"@.len() == 3);
}

/// A pipeline without steps evaluates as its first node does.
pub proof fn law_pipeline_without_steps(
    first: (Expr, Span),
    env: EnvModel,
    assets: AssetsModel,
    arrow: Span,
    span: Span,
)
    ensures
        evaluate(env, assets, (Expr::Cons(seq![(Expr::Sym("->"@), arrow), first]), span)) == evaluate(
            env,
            assets,
            first,
        ),
{
    lemma_thread_symbol();
    let table = operand_table(Operator::Thread);
    reveal_with_fuel(first_missing, 2);
    assert(first_missing(table, 1, 1) is None);
}

/// A pipeline with one step evaluates as the step does with the first node
/// as its first operand.
pub proof fn law_pipeline_with_one_step(
    first: (Expr, Span),
    step: (Expr, Span),
    env: EnvModel,
    assets: AssetsModel,
    arrow: Span,
    span: Span,
)
    requires
        thread_step(first, step) is Ok,
    ensures
        evaluate(env, assets, (Expr::Cons(seq![(Expr::Sym("->"@), arrow), first, step]), span)) == evaluate(
            env,
            assets,
            thread_step(first, step)->Ok_0,
        ),
{
    lemma_thread_symbol();
    let table = operand_table(Operator::Thread);
    reveal_with_fuel(first_missing, 2);
    assert(first_missing(table, 2, 1) is None);
    let xs = seq![(Expr::Sym("->"@), arrow), first, step];
    let steps = xs.subrange(2, 3);
    assert(steps =~= seq![step]);
    reveal_with_fuel(threaded, 2);
    assert(threaded(first, steps, 1) == thread_step(first, step));
}

} // verus!
