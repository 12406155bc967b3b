use imgscript::ast::{Kind, List, Span, Spanned};
use imgscript::eval::assets::Assets;
use imgscript::eval::error::{Argument, EvalError, Failure, Operator};
use imgscript::eval::pipeline::{rewrite, rewrite_step};
use imgscript::eval::{eval_expr, eval_program, DataType, Env};
use imgscript::image::effect::Kernel;
use imgscript::image::Image;
use imgscript::number::Number;
use imgscript::pixel::Pixel;

fn at(start: usize, end: usize) -> Span {
    Span { start, end }
}

fn sym(name: &str) -> Spanned {
    (List::Sym(name.to_string()), at(1, 2))
}

fn whole(n: i64) -> Spanned {
    (List::Int(n), at(3, 4))
}

fn float(x: f64) -> Spanned {
    (List::Float(Number::from_bits(x.to_bits())), at(5, 6))
}

fn text(s: &str) -> Spanned {
    (List::Str(s.to_string()), at(7, 8))
}

fn quote(inner: Spanned) -> Spanned {
    (List::Quote(Box::new(inner)), at(9, 10))
}

fn list(items: Vec<Spanned>) -> Spanned {
    (List::Cons(items), at(100, 200))
}

fn call(name: &str, mut operands: Vec<Spanned>) -> Spanned {
    let mut items = vec![sym(name)];
    items.append(&mut operands);
    list(items)
}

fn run(env: &mut Env, assets: &Assets, node: Spanned) -> Result<DataType, Failure> {
    eval_expr(env, assets, &node)
}

fn number(r: Result<DataType, Failure>) -> f64 {
    match r {
        Ok(DataType::Number(n)) => f64::from_bits(n.to_bits()),
        other => panic!("not a number: {:?}", other),
    }
}

fn image(r: Result<DataType, Failure>) -> Image {
    match r {
        Ok(DataType::Image(i)) => i,
        other => panic!("not an image: {:?}", other),
    }
}

fn error(r: Result<DataType, Failure>) -> EvalError {
    match r {
        Err(f) => f.error,
        other => panic!("not an error: {:?}", other),
    }
}

fn filled(width: usize, height: usize, color: Pixel) -> Image {
    let mut img = Image::new(width, height);
    for y in 0..height {
        for x in 0..width {
            img.set_pixel_unchecked(x, y, color);
        }
    }
    img
}

fn with_files() -> Assets {
    let mut assets = Assets::new();
    assets.add_image("red.png".to_string(), filled(10, 10, Pixel::new(255, 0, 0, 255)));
    assets.add_image("half.png".to_string(), filled(4, 6, Pixel::new(200, 100, 50, 128)));
    assets.add_failure("broken.png".to_string(), "not an image".to_string());
    assets.add_kernel(Kernel::new(vec![1 << 30, 1 << 31, 1 << 30]).unwrap());
    assets
}

#[test]
fn literals_evaluate_to_themselves() {
    let mut env = Env::new();
    let assets = Assets::new();
    assert_eq!(number(run(&mut env, &assets, whole(5))), 5.0);
    assert_eq!(number(run(&mut env, &assets, float(2.5))), 2.5);
    assert!(matches!(run(&mut env, &assets, (List::Nil, at(0, 1))), Ok(DataType::Nil)));
    match run(&mut env, &assets, text("hello")) {
        Ok(DataType::Str(s)) => assert_eq!(s, "hello"),
        other => panic!("{:?}", other),
    }
    match run(&mut env, &assets, quote(sym("nearest"))) {
        Ok(DataType::Sym(s)) => assert_eq!(s, "nearest"),
        other => panic!("{:?}", other),
    }
}

#[test]
fn whole_literals_widen_to_numbers() {
    let mut env = Env::new();
    let assets = Assets::new();
    let big = (1i64 << 53) + 1;
    assert_eq!(number(run(&mut env, &assets, whole(big))), big as f64);
    assert_eq!(number(run(&mut env, &assets, whole(-7))), -7.0);
}

#[test]
fn pipeline_threads_the_first_operand() {
    let mut env = Env::new();
    let assets = Assets::new();
    let program = call("->", vec![whole(5), call("+", vec![whole(1)]), call("*", vec![whole(2)])]);
    assert_eq!(number(run(&mut env, &assets, program)), 12.0);
    let program = call("->", vec![whole(5)]);
    assert_eq!(number(run(&mut env, &assets, program)), 5.0);
    let program = call("->", vec![whole(10), call("-", vec![whole(4)]), call("/", vec![whole(4)])]);
    assert_eq!(number(run(&mut env, &assets, program)), 1.5);
}

#[test]
fn pipeline_with_a_bare_symbol_step() {
    let mut env = Env::new();
    let assets = with_files();
    run(&mut env, &assets, call("canvas", vec![whole(4), whole(4)])).unwrap();
    let program = call("->", vec![call("img-load", vec![text("red.png")]), sym("img-render")]);
    assert!(matches!(run(&mut env, &assets, program), Ok(DataType::Nil)));
    assert_eq!(env.canvas().unwrap().get_pixel_unchecked(3, 3), Pixel::new(255, 0, 0, 255));
}

#[test]
fn pipeline_rewrites_before_it_evaluates() {
    let mut env = Env::new();
    let assets = Assets::new();
    let program = call("->", vec![sym("undefined"), list(vec![])]);
    assert_eq!(error(run(&mut env, &assets, program)), EvalError::EmptyPipelineFunction);
    let program = call("->", vec![sym("undefined"), whole(3)]);
    assert_eq!(error(run(&mut env, &assets, program)), EvalError::UnsupportedPipelineStep);
    let program = call("->", vec![whole(1), text("f")]);
    let failure = run(&mut env, &assets, program).unwrap_err();
    assert_eq!(failure.error, EvalError::UnsupportedPipelineStep);
    assert_eq!(failure.span, at(100, 200));
    let program = call("->", vec![]);
    assert_eq!(
        error(run(&mut env, &assets, program)),
        EvalError::MissingArgument { operator: Operator::Thread, argument: Argument::First }
    );
}

#[test]
fn a_step_takes_the_node_as_its_first_operand() {
    let node = whole(5);
    let step = (List::Cons(vec![sym("+"), whole(1), whole(2)]), at(40, 50));
    let next = rewrite_step(node, &step).unwrap();
    assert_eq!(next.1, at(40, 50));
    match next.0 {
        List::Cons(items) => {
            assert_eq!(items.len(), 4);
            assert!(matches!(&items[0].0, List::Sym(s) if s == "+"));
            assert!(matches!(items[1].0, List::Int(5)));
            assert!(matches!(items[2].0, List::Int(1)));
            assert!(matches!(items[3].0, List::Int(2)));
        },
        other => panic!("{:?}", other),
    }
    let step = (List::Sym("f".to_string()), at(60, 61));
    let next = rewrite_step(whole(5), &step).unwrap();
    assert_eq!(next.1, at(60, 61));
    match next.0 {
        List::Cons(items) => {
            assert_eq!(items.len(), 2);
            assert!(matches!(&items[0].0, List::Sym(s) if s == "f"));
            assert_eq!(items[0].1, at(60, 61));
            assert!(matches!(items[1].0, List::Int(5)));
        },
        other => panic!("{:?}", other),
    }
    assert_eq!(rewrite_step(whole(5), &list(vec![])).unwrap_err(), EvalError::EmptyPipelineFunction);
    assert_eq!(rewrite_step(whole(5), &whole(1)).unwrap_err(), EvalError::UnsupportedPipelineStep);
    let nodes = vec![sym("->"), whole(5), sym("f"), call("g", vec![whole(1)])];
    match rewrite(&nodes[1], &nodes, 2).unwrap().0 {
        List::Cons(outer) => {
            assert_eq!(outer.len(), 3);
            assert!(matches!(&outer[0].0, List::Sym(s) if s == "g"));
            match &outer[1].0 {
                List::Cons(inner) => {
                    assert_eq!(inner.len(), 2);
                    assert!(matches!(&inner[0].0, List::Sym(s) if s == "f"));
                    assert!(matches!(inner[1].0, List::Int(5)));
                },
                other => panic!("{:?}", other),
            }
            assert!(matches!(outer[2].0, List::Int(1)));
        },
        other => panic!("{:?}", other),
    }
}

#[test]
fn arithmetic_is_in_double_precision() {
    let mut env = Env::new();
    let assets = Assets::new();
    assert_eq!(number(run(&mut env, &assets, call("+", vec![float(0.1), float(0.2)]))), 0.1 + 0.2);
    assert_eq!(number(run(&mut env, &assets, call("-", vec![float(0.3), float(0.1)]))), 0.3 - 0.1);
    assert_eq!(number(run(&mut env, &assets, call("*", vec![float(1.1), float(1.1)]))), 1.1 * 1.1);
    assert_eq!(number(run(&mut env, &assets, call("/", vec![whole(1), whole(3)]))), 1.0 / 3.0);
    assert_eq!(number(run(&mut env, &assets, call("%", vec![float(7.5), whole(2)]))), 1.5);
    assert_eq!(number(run(&mut env, &assets, call("%", vec![float(-7.5), whole(2)]))), -1.5);
    assert_eq!(number(run(&mut env, &assets, call("+", vec![whole(1), whole(2), sym("ignored")]))), 3.0);
}

#[test]
fn division_by_zero_fails() {
    let mut env = Env::new();
    let assets = Assets::new();
    assert_eq!(error(run(&mut env, &assets, call("/", vec![whole(1), whole(0)]))), EvalError::DivisionByZero);
    assert_eq!(error(run(&mut env, &assets, call("%", vec![whole(1), whole(0)]))), EvalError::DivisionByZero);
    assert_eq!(error(run(&mut env, &assets, call("/", vec![whole(1), float(-0.0)]))), EvalError::DivisionByZero);
    assert_eq!(number(run(&mut env, &assets, call("*", vec![whole(1), whole(0)]))), 0.0);
}

#[test]
fn an_undefined_symbol_is_named() {
    let mut env = Env::new();
    let assets = Assets::new();
    let failure = run(&mut env, &assets, sym("foo")).unwrap_err();
    assert_eq!(failure.error, EvalError::UndefinedSymbol("foo".to_string()));
    assert_eq!(failure.span, at(1, 2));
}

#[test]
fn def_binds_a_name() {
    let mut env = Env::new();
    let assets = Assets::new();
    assert!(matches!(run(&mut env, &assets, call("def", vec![sym("x"), whole(5)])), Ok(DataType::Nil)));
    assert_eq!(number(run(&mut env, &assets, sym("x"))), 5.0);
    assert_eq!(number(run(&mut env, &assets, call("+", vec![sym("x"), sym("x")]))), 10.0);
    run(&mut env, &assets, call("def", vec![sym("x"), call("*", vec![sym("x"), whole(3)])])).unwrap();
    assert_eq!(number(run(&mut env, &assets, sym("x"))), 15.0);
    run(&mut env, &assets, call("def", vec![sym("y"), sym("x")])).unwrap();
    assert_eq!(number(run(&mut env, &assets, sym("y"))), 15.0);
    assert_eq!(
        error(run(&mut env, &assets, call("def", vec![sym("z"), sym("nothing")]))),
        EvalError::UndefinedSymbol("nothing".to_string())
    );
    assert_eq!(error(run(&mut env, &assets, sym("z"))), EvalError::UndefinedSymbol("z".to_string()));
    assert_eq!(
        error(run(&mut env, &assets, call("def", vec![whole(1), whole(2)]))),
        EvalError::TypeMismatch { expected: Kind::Sym, actual: Kind::Number, argument: Argument::Name }
    );
    assert_eq!(
        error(run(&mut env, &assets, call("def", vec![sym("x")]))),
        EvalError::MissingArgument { operator: Operator::Def, argument: Argument::Value }
    );
    assert_eq!(
        error(run(&mut env, &assets, call("def", vec![]))),
        EvalError::MissingArgument { operator: Operator::Def, argument: Argument::Name }
    );
}

#[test]
fn environment_reads_and_overwrites() {
    let mut env = Env::new();
    assert!(env.get("a").is_none());
    assert!(env.canvas().is_none());
    assert!(env.canvas_mut().is_none());
    env.set("a".to_string(), DataType::Number(Number::from_i64(1)));
    env.set("b".to_string(), DataType::Str("text".to_string()));
    env.set("a".to_string(), DataType::Number(Number::from_i64(2)));
    match env.get("a") {
        Some(DataType::Number(n)) => assert_eq!(n.to_bits(), 2.0f64.to_bits()),
        other => panic!("{:?}", other),
    }
    assert_eq!(env.get("a").unwrap().kind_name(), "number");
    assert_eq!(env.get("b").unwrap().kind_name(), "string");
    assert_eq!(env.get("b").unwrap().kind(), Kind::Str);
    assert_eq!(DataType::Nil.kind_name(), "nil");
    assert_eq!(DataType::Sym("s".to_string()).kind_name(), "symbol");
    assert_eq!(DataType::Image(Image::new(1, 1)).kind_name(), "image");
    env.set_canvas(Image::new(2, 2));
    env.canvas_mut().unwrap().set_pixel_unchecked(1, 1, Pixel::new(1, 2, 3, 4));
    assert_eq!(env.canvas().unwrap().get_pixel_unchecked(1, 1), Pixel::new(1, 2, 3, 4));
}

#[test]
fn applications_need_an_operator() {
    let mut env = Env::new();
    let assets = Assets::new();
    let failure = run(&mut env, &assets, list(vec![])).unwrap_err();
    assert_eq!(failure.error, EvalError::EmptyApplication);
    assert_eq!(failure.span, at(100, 200));
    assert_eq!(
        error(run(&mut env, &assets, call("frobnicate", vec![whole(1)]))),
        EvalError::UnknownOperator("frobnicate".to_string())
    );
    assert_eq!(
        error(run(&mut env, &assets, list(vec![whole(1), whole(2)]))),
        EvalError::UnknownOperator("number".to_string())
    );
    assert_eq!(
        error(run(&mut env, &assets, list(vec![list(vec![]), whole(2)]))),
        EvalError::UnknownOperator("list".to_string())
    );
}

#[test]
fn nodes_without_a_value() {
    let mut env = Env::new();
    let assets = Assets::new();
    let vector = (List::Vec(vec![whole(1), whole(2)]), at(11, 12));
    let failure = run(&mut env, &assets, vector).unwrap_err();
    assert_eq!(failure.error, EvalError::Unsupported(Kind::Vector));
    assert_eq!(failure.span, at(11, 12));
    assert_eq!(error(run(&mut env, &assets, quote(whole(1)))), EvalError::Unsupported(Kind::Quote));
    assert_eq!(error(run(&mut env, &assets, quote(list(vec![])))), EvalError::Unsupported(Kind::Quote));
}

#[test]
fn missing_operands_are_named() {
    let mut env = Env::new();
    let assets = with_files();
    let missing = |operator, argument| EvalError::MissingArgument { operator, argument };
    assert_eq!(error(run(&mut env, &assets, call("canvas", vec![]))), missing(Operator::Canvas, Argument::Width));
    assert_eq!(error(run(&mut env, &assets, call("canvas", vec![whole(1)]))), missing(Operator::Canvas, Argument::Height));
    assert_eq!(error(run(&mut env, &assets, call("img-load", vec![]))), missing(Operator::ImgLoad, Argument::Path));
    assert_eq!(error(run(&mut env, &assets, call("img-render", vec![]))), missing(Operator::ImgRender, Argument::Image));
    assert_eq!(
        error(run(&mut env, &assets, call("img-resize", vec![sym("nope"), sym("nope")]))),
        missing(Operator::ImgResize, Argument::Width)
    );
    assert_eq!(
        error(run(&mut env, &assets, call("img-move", vec![sym("nope"), whole(1)]))),
        missing(Operator::ImgMove, Argument::Y)
    );
    assert_eq!(
        error(run(&mut env, &assets, call("img-mix", vec![sym("nope")]))),
        missing(Operator::ImgMix, Argument::Top)
    );
    assert_eq!(
        error(run(&mut env, &assets, call("eff-blur", vec![sym("nope")]))),
        missing(Operator::EffBlur, Argument::Radius)
    );
    assert_eq!(error(run(&mut env, &assets, call("+", vec![]))), missing(Operator::Plus, Argument::Left));
    assert_eq!(error(run(&mut env, &assets, call("-", vec![whole(1)]))), missing(Operator::Minus, Argument::Right));
    assert_eq!(error(run(&mut env, &assets, call("*", vec![whole(1)]))), missing(Operator::Times, Argument::Right));
    assert_eq!(error(run(&mut env, &assets, call("/", vec![]))), missing(Operator::Divide, Argument::Left));
    assert_eq!(error(run(&mut env, &assets, call("%", vec![whole(1)]))), missing(Operator::Modulo, Argument::Right));
}

#[test]
fn operands_of_the_wrong_kind_are_reported() {
    let mut env = Env::new();
    let assets = with_files();
    let wrong = |expected, actual, argument| EvalError::TypeMismatch { expected, actual, argument };
    let failure = run(&mut env, &assets, call("+", vec![whole(1), text("a")])).unwrap_err();
    assert_eq!(failure.error, wrong(Kind::Number, Kind::Str, Argument::Right));
    assert_eq!(failure.span, at(100, 200));
    assert_eq!(
        error(run(&mut env, &assets, call("+", vec![quote(sym("a")), sym("never")]))),
        wrong(Kind::Number, Kind::Sym, Argument::Left)
    );
    assert_eq!(
        error(run(&mut env, &assets, call("canvas", vec![text("a"), whole(1)]))),
        wrong(Kind::Number, Kind::Str, Argument::Width)
    );
    assert_eq!(
        error(run(&mut env, &assets, call("canvas", vec![whole(1), (List::Nil, at(0, 0))]))),
        wrong(Kind::Number, Kind::Nil, Argument::Height)
    );
    assert_eq!(
        error(run(&mut env, &assets, call("canvas", vec![text("a"), sym("undefined")]))),
        EvalError::UndefinedSymbol("undefined".to_string())
    );
    assert_eq!(
        error(run(&mut env, &assets, call("img-load", vec![whole(1)]))),
        wrong(Kind::Str, Kind::Number, Argument::Path)
    );
    assert_eq!(
        error(run(&mut env, &assets, call("img-render", vec![whole(1)]))),
        wrong(Kind::Image, Kind::Number, Argument::Image)
    );
    let red = || call("img-load", vec![text("red.png")]);
    assert_eq!(
        error(run(&mut env, &assets, call("img-resize", vec![red(), whole(1), whole(1), whole(1)]))),
        wrong(Kind::Sym, Kind::Number, Argument::Method)
    );
    assert_eq!(
        error(run(&mut env, &assets, call("img-resize", vec![red(), quote(sym("nn")), whole(1), red()]))),
        wrong(Kind::Number, Kind::Image, Argument::Height)
    );
    assert_eq!(
        error(run(&mut env, &assets, call("img-move", vec![red(), whole(1), whole(1), whole(1)]))),
        wrong(Kind::Sym, Kind::Number, Argument::Method)
    );
    assert_eq!(
        error(run(&mut env, &assets, call("img-move", vec![red(), text("x"), sym("never")]))),
        wrong(Kind::Number, Kind::Str, Argument::X)
    );
    assert_eq!(
        error(run(&mut env, &assets, call("img-mix", vec![red(), whole(1), sym("never")]))),
        wrong(Kind::Image, Kind::Number, Argument::Top)
    );
    assert_eq!(
        error(run(&mut env, &assets, call("img-mix", vec![whole(1), sym("never"), sym("never")]))),
        wrong(Kind::Image, Kind::Number, Argument::Bottom)
    );
    assert_eq!(
        error(run(&mut env, &assets, call("eff-blur", vec![red(), red()]))),
        wrong(Kind::Number, Kind::Image, Argument::Radius)
    );
}

#[test]
fn render_needs_a_canvas() {
    let mut env = Env::new();
    let assets = with_files();
    let program = call("img-render", vec![call("img-load", vec![text("red.png")])]);
    let failure = run(&mut env, &assets, program).unwrap_err();
    assert_eq!(failure.error, EvalError::NoCanvas);
    assert_eq!(failure.span, at(100, 200));
    assert!(env.canvas().is_none());
}

#[test]
fn canvas_makes_a_transparent_canvas() {
    let mut env = Env::new();
    let assets = with_files();
    assert!(matches!(run(&mut env, &assets, call("canvas", vec![float(3.9), float(2.1)])), Ok(DataType::Nil)));
    let canvas = env.canvas().unwrap();
    assert_eq!(canvas.width(), 3);
    assert_eq!(canvas.height(), 2);
    assert_eq!(canvas.get_pixel_unchecked(2, 1), Pixel::new(0, 0, 0, 0));
    run(&mut env, &assets, call("canvas", vec![whole(-3), whole(2)])).unwrap();
    assert_eq!(env.canvas().unwrap().width(), 0);
    assert_eq!(env.canvas().unwrap().height(), 2);
}

#[test]
fn a_second_canvas_discards_the_first() {
    let mut env = Env::new();
    let assets = with_files();
    run(&mut env, &assets, call("canvas", vec![whole(4), whole(4)])).unwrap();
    run(&mut env, &assets, call("img-render", vec![call("img-load", vec![text("red.png")])])).unwrap();
    assert_eq!(env.canvas().unwrap().get_pixel_unchecked(0, 0), Pixel::new(255, 0, 0, 255));
    assert!(matches!(run(&mut env, &assets, call("canvas", vec![whole(2), whole(3)])), Ok(DataType::Nil)));
    let canvas = env.canvas().unwrap();
    assert_eq!(canvas.width(), 2);
    assert_eq!(canvas.height(), 3);
    for y in 0..3 {
        for x in 0..2 {
            assert_eq!(canvas.get_pixel_unchecked(x, y), Pixel::new(0, 0, 0, 0));
        }
    }
}

#[test]
fn render_composites_over_the_canvas() {
    let mut env = Env::new();
    let assets = with_files();
    run(&mut env, &assets, call("canvas", vec![whole(12), whole(5)])).unwrap();
    run(&mut env, &assets, call("img-render", vec![call("img-load", vec![text("red.png")])])).unwrap();
    run(&mut env, &assets, call("img-render", vec![call("img-load", vec![text("half.png")])])).unwrap();
    let canvas = env.canvas().unwrap();
    assert_eq!(canvas.width(), 12);
    assert_eq!(canvas.height(), 5);
    assert_eq!(canvas.get_pixel_unchecked(0, 0), Pixel::new(227, 50, 25, 255));
    assert_eq!(canvas.get_pixel_unchecked(3, 4), Pixel::new(227, 50, 25, 255));
    assert_eq!(canvas.get_pixel_unchecked(4, 4), Pixel::new(255, 0, 0, 255));
    assert_eq!(canvas.get_pixel_unchecked(10, 0), Pixel::new(0, 0, 0, 0));
}

#[test]
fn images_come_from_the_assets() {
    let mut env = Env::new();
    let assets = with_files();
    let img = image(run(&mut env, &assets, call("img-load", vec![text("half.png")])));
    assert_eq!(img.width(), 4);
    assert_eq!(img.height(), 6);
    assert_eq!(img.get_pixel_unchecked(3, 5), Pixel::new(200, 100, 50, 128));
    assert_eq!(
        error(run(&mut env, &assets, call("img-load", vec![text("broken.png")]))),
        EvalError::IOError { path: "broken.png".to_string(), cause: "not an image".to_string() }
    );
    assert_eq!(
        error(run(&mut env, &assets, call("img-load", vec![text("other.png")]))),
        EvalError::ImageNotSupplied("other.png".to_string())
    );
    run(&mut env, &assets, call("def", vec![sym("p"), text("red.png")])).unwrap();
    assert_eq!(image(run(&mut env, &assets, call("img-load", vec![sym("p")]))).width(), 10);
}

#[test]
fn later_assets_replace_earlier_ones() {
    let mut assets = Assets::new();
    assert!(assets.image("a").is_none());
    assert!(assets.kernel(1).is_none());
    assets.add_failure("a".to_string(), "first".to_string());
    assets.add_image("a".to_string(), Image::new(2, 3));
    match assets.image("a") {
        Some(Ok(img)) => assert_eq!(img.height(), 3),
        other => panic!("{:?}", other),
    }
    assets.add_kernel(Kernel::new(vec![1, 2, 3]).unwrap());
    assets.add_kernel(Kernel::new(vec![4, 5, 6]).unwrap());
    assets.add_kernel(Kernel::new(vec![7]).unwrap());
    assert_eq!(assets.kernel(1).unwrap().weight(0), 4);
    assert_eq!(assets.kernel(0).unwrap().weight(0), 7);
    assert!(assets.kernel(2).is_none());
}

#[test]
fn resize_by_the_named_method() {
    let mut env = Env::new();
    let assets = with_files();
    let half = || call("img-load", vec![text("half.png")]);
    for name in ["nearest", "nearest-neighbor", "nearest-neighbour", "nn", "bilinear", "b"] {
        let img = image(run(&mut env, &assets, call("img-resize", vec![half(), quote(sym(name)), whole(8), float(3.7)])));
        assert_eq!(img.width(), 8, "{}", name);
        assert_eq!(img.height(), 3, "{}", name);
        assert_eq!(img.get_pixel_unchecked(7, 2), Pixel::new(200, 100, 50, 128), "{}", name);
    }
    assert_eq!(
        error(run(&mut env, &assets, call("img-resize", vec![half(), quote(sym("cubic")), whole(8), whole(3)]))),
        EvalError::UnknownMethod("cubic".to_string())
    );
    assert_eq!(
        error(run(&mut env, &assets, call("img-resize", vec![half(), quote(sym("nn")), float(1e30), float(1e30)]))),
        EvalError::ImageTooLarge
    );
    assert_eq!(
        error(run(&mut env, &assets, call("img-resize", vec![half(), quote(sym("cubic")), float(1e30), float(1e30)]))),
        EvalError::UnknownMethod("cubic".to_string())
    );
    assert_eq!(error(run(&mut env, &assets, call("canvas", vec![float(1e30), whole(1)]))), EvalError::ImageTooLarge);
}

#[test]
fn move_grows_the_image() {
    let mut env = Env::new();
    let assets = with_files();
    let red = || call("img-load", vec![text("red.png")]);
    let minus_two = || call("-", vec![whole(0), whole(2)]);
    for program in [
        call("img-move", vec![red(), whole(3), minus_two()]),
        call("img-move", vec![red(), whole(3), minus_two(), quote(sym("pixels"))]),
        call("img-move", vec![red(), float(3.4), float(-1.5), quote(sym("px"))]),
        call("img-move", vec![red(), float(0.3), float(-0.2), quote(sym("fraction"))]),
        call("img-move", vec![red(), float(0.25), float(-0.15), quote(sym("frac"))]),
    ] {
        let img = image(run(&mut env, &assets, program));
        assert_eq!(img.width(), 13);
        assert_eq!(img.height(), 12);
        assert_eq!(img.get_pixel_unchecked(3, 0), Pixel::new(255, 0, 0, 255));
        assert_eq!(img.get_pixel_unchecked(12, 7), Pixel::new(255, 0, 0, 255));
        assert_eq!(img.get_pixel_unchecked(2, 0), Pixel::new(0, 0, 0, 0));
        assert_eq!(img.get_pixel_unchecked(3, 8), Pixel::new(0, 0, 0, 0));
        assert_eq!(img.get_pixel_unchecked(12, 11), Pixel::new(0, 0, 0, 0));
    }
    assert_eq!(
        error(run(&mut env, &assets, call("img-move", vec![red(), whole(1), whole(1), quote(sym("miles"))]))),
        EvalError::UnknownMethod("miles".to_string())
    );
    assert_eq!(
        error(run(&mut env, &assets, call("img-move", vec![red(), float(1e300), whole(1)]))),
        EvalError::ImageTooLarge
    );
}

#[test]
fn mix_in_the_named_mode() {
    let mut env = Env::new();
    let assets = with_files();
    let red = || call("img-load", vec![text("red.png")]);
    let half = || call("img-load", vec![text("half.png")]);
    let expected = [
        ("normal", Pixel::new(227, 50, 25, 255)),
        ("multiply", Pixel::new(100, 0, 0, 255)),
        ("screen", Pixel::new(255, 50, 25, 255)),
        ("overlay", Pixel::new(200, 0, 0, 255)),
    ];
    for (name, want) in expected {
        let img = image(run(&mut env, &assets, call("img-mix", vec![red(), half(), quote(sym(name))])));
        assert_eq!(img.width(), 4, "{}", name);
        assert_eq!(img.height(), 6, "{}", name);
        assert_eq!(img.get_pixel_unchecked(3, 5), want, "{}", name);
    }
    assert_eq!(
        error(run(&mut env, &assets, call("img-mix", vec![red(), half(), quote(sym("dodge"))]))),
        EvalError::UnknownMethod("dodge".to_string())
    );
}

#[test]
fn blur_with_the_supplied_kernel() {
    let mut env = Env::new();
    let assets = with_files();
    let red = || call("img-load", vec![text("red.png")]);
    let same = image(run(&mut env, &assets, call("eff-blur", vec![red(), whole(0)])));
    assert_eq!(same.width(), 10);
    for y in 0..10 {
        for x in 0..10 {
            assert_eq!(same.get_pixel_unchecked(x, y), Pixel::new(255, 0, 0, 255));
        }
    }
    let same = image(run(&mut env, &assets, call("eff-blur", vec![red(), float(0.9)])));
    assert_eq!(same.get_pixel_unchecked(0, 0), Pixel::new(255, 0, 0, 255));
    let soft = image(run(&mut env, &assets, call("eff-blur", vec![red(), float(1.5)])));
    assert_eq!(soft.width(), 10);
    assert_eq!(soft.height(), 10);
    assert_eq!(soft.get_pixel_unchecked(5, 5), Pixel::new(255, 0, 0, 255));
    assert_eq!(soft.get_pixel_unchecked(0, 5), Pixel::new(191, 0, 0, 191));
    assert_eq!(soft.get_pixel_unchecked(0, 0), Pixel::new(143, 0, 0, 143));
    assert_eq!(
        error(run(&mut env, &assets, call("eff-blur", vec![red(), float(-0.5)]))),
        EvalError::NegativeBlurRadius
    );
    assert_eq!(
        error(run(&mut env, &assets, call("eff-blur", vec![red(), whole(2)]))),
        EvalError::KernelNotSupplied(2)
    );
}

#[test]
fn a_failure_keeps_what_was_done_before_it() {
    let mut env = Env::new();
    let assets = with_files();
    let program = call("+", vec![call("canvas", vec![whole(2), whole(2)]), whole(1)]);
    assert_eq!(
        error(run(&mut env, &assets, program)),
        EvalError::TypeMismatch { expected: Kind::Number, actual: Kind::Nil, argument: Argument::Left }
    );
    assert_eq!(env.canvas().unwrap().width(), 2);
    let program = call("+", vec![whole(1), text("a"), call("def", vec![sym("late"), whole(1)])]);
    assert!(run(&mut env, &assets, program).is_err());
    assert!(env.get("late").is_none());
}

#[test]
fn a_program_stops_at_its_first_failure() {
    let assets = with_files();
    let mut env = Env::new();
    let program = vec![
        call("canvas", vec![whole(3), whole(3)]),
        call("def", vec![sym("img"), call("img-load", vec![text("red.png")])]),
        call("img-render", vec![sym("img")]),
    ];
    assert_eq!(eval_program(&mut env, &assets, &program), Ok(()));
    assert_eq!(env.canvas().unwrap().get_pixel_unchecked(2, 2), Pixel::new(255, 0, 0, 255));
    let mut env = Env::new();
    let program = vec![
        call("def", vec![sym("a"), whole(1)]),
        call("/", vec![sym("a"), whole(0)]),
        call("def", vec![sym("b"), whole(2)]),
    ];
    let failure = eval_program(&mut env, &assets, &program).unwrap_err();
    assert_eq!(failure.error, EvalError::DivisionByZero);
    assert!(env.get("a").is_some());
    assert!(env.get("b").is_none());
    let mut env = Env::new();
    assert_eq!(eval_program(&mut env, &assets, &vec![]), Ok(()));
}
