use savage::evaluate::{Context, Error};
use savage::expression::{Expression, FunctionBody};
use savage::functions::{default_context, functions};
use savage::helpers::{difference, integer, pow, product, sum, var};
use savage::parse::parse;

fn t(expression: &str, result: &str) {
    let ctx = default_context();
    let parsed = parse(expression).unwrap();
    let evaluated = parsed.evaluate(&ctx).unwrap();
    assert_eq!(evaluated.to_text(), result, "for input {:?}", expression);
}

#[test]
fn examples() {
    for function in functions() {
        for (input, output) in &function.metadata.examples {
            t(input, output);
        }
    }
}

#[test]
fn numeric_exactness() {
    let ctx = Context::new();
    let e = parse("1/3 + 1/3 + 1/3").unwrap();
    let r = e.evaluate(&ctx).unwrap();
    assert!(r == integer(1));
    assert_eq!(r.to_text(), "1");
}

#[test]
fn symbolic_residue() {
    let ctx = Context::new();
    let e = parse("a + 1").unwrap();
    let r = e.evaluate(&ctx).unwrap();
    assert!(r == sum(var("a"), integer(1)));
    let vars = r.variables();
    assert_eq!(vars.len(), 1);
    assert_eq!(vars[0], "a");
}

#[test]
fn determinants() {
    t("det([[1, 2], [3, 4]])", "-2");
    t("det([])", "1");
    let ctx = default_context();
    let e = parse("det([[a, b], [c, d]])").unwrap();
    let r = e.evaluate(&ctx).unwrap();
    let want = difference(
        product(var("a"), var("d")),
        product(var("b"), var("c")),
    );
    assert!(r == want);
}

#[test]
fn arity_and_shape_errors() {
    let ctx = default_context();
    let wrong_arity = parse("det([[1]], [[1]])").unwrap();
    match wrong_arity.evaluate(&ctx) {
        Err(Error::InvalidNumberOfArguments { min_number, max_number, given_number, .. }) => {
            assert_eq!(min_number, 1);
            assert_eq!(max_number, 1);
            assert_eq!(given_number, 2);
        },
        _ => panic!("expected an arity error"),
    }
    let non_square = parse("det([[1, 2, 3], [4, 5, 6]])").unwrap();
    match non_square.evaluate(&ctx) {
        Err(Error::InvalidArgument { .. }) => {},
        _ => panic!("expected a shape error"),
    }
}

#[test]
fn not_implemented_entries() {
    let ctx = default_context();
    for name in ["nullspace([[1]])", "eigenvals([[1]])", "eigenvecs([[1]])"] {
        let e = parse(name).unwrap();
        match e.evaluate(&ctx) {
            Err(Error::NotImplemented { .. }) => {},
            _ => panic!("expected a not-implemented fault for {:?}", name),
        }
    }
}

#[test]
fn division_by_zero() {
    let ctx = Context::new();
    for input in ["1/0", "5 % 0", "0 ^ (-1)"] {
        let e = parse(input).unwrap();
        match e.evaluate(&ctx) {
            Err(Error::DivisionByZero { .. }) => {},
            _ => panic!("expected division by zero for {:?}", input),
        }
    }
}

#[test]
fn arithmetic_folding() {
    t("2 ^ 10", "1024");
    t("2 ^ (-2)", "1/4");
    t("(1 + i) * (1 - i)", "2");
    t("1 < 2", "true");
    t("2 <= 1", "false");
    t("1 == 1", "true");
    t("1 != 1", "false");
    t("true && false", "false");
    t("true || false", "true");
    t("!true", "false");
    t("-(3 - 5)", "2");
    t("7 % 3", "1");
    t("0.5 + 0.25", "0.75");
    t("1/2 + 1/2", "1");
    t("3 > 2 && 2 >= 2", "true");
}

#[test]
fn matrix_arithmetic() {
    t("[1, 2] + [3, 4]", "[4, 6]");
    t("[[1, 2], [3, 4]] * [[1, 0], [0, 1]]", "[[1, 2], [3, 4]]");
    t("2 * [1, 2, 3]", "[2, 4, 6]");
    t("[[1, 2], [3, 4]] - [[1, 1], [1, 1]]", "[[0, 1], [2, 3]]");
    t("-[1, -2]", "[-1, 2]");
    t("trace([[1, 2], [3, 4]])", "5");
    t("transpose([1, 2, 3])", "[[1, 2, 3]]");
}

#[test]
fn user_defined_functions() {
    let mut ctx = default_context();
    ctx.insert(
        "f".to_owned(),
        Expression::FunctionValue(
            "f".to_owned(),
            FunctionBody::UserDefined(vec!["x".to_owned()], Box::new(pow(var("x"), integer(2)))),
        ),
    );
    let e = parse("f(3)").unwrap();
    let r = e.evaluate(&ctx).unwrap();
    assert!(r == integer(9));
    let wrong = parse("f(1, 2)").unwrap();
    match wrong.evaluate(&ctx) {
        Err(Error::InvalidNumberOfArguments { given_number, .. }) => {
            assert_eq!(given_number, 2);
        },
        _ => panic!("expected an arity error"),
    }
}

#[test]
fn evaluation_is_idempotent_on_samples() {
    let ctx = default_context();
    for input in [
        "1/3 + 1/3 + 1/3",
        "a + 1",
        "det([[a, b], [c, d]])",
        "[1, a, 2 * 3]",
        "f(x) + 2 ^ 5",
        "true && b",
        "1 - (2 - 3)",
    ] {
        let e = parse(input).unwrap();
        let once = e.evaluate(&ctx).unwrap();
        let twice = once.evaluate(&ctx).unwrap();
        assert!(once == twice, "idempotence failed for {:?}", input);
    }
}

#[test]
fn round_trips_on_literals() {
    let ctx = Context::new();
    for input in [
        "12345",
        "3.075",
        "true",
        "false",
        "[1, 2, 3]",
        "[[1, 2], [3, 4]]",
        "1 + 2 + 3",
        "1 - (2 - 3)",
        "a * (b + c)",
    ] {
        let e = parse(input).unwrap();
        let text = e.to_text();
        let back = parse(&text).unwrap();
        assert!(back == e, "round trip failed for {:?} printed {:?}", input, text);
        let _ = &ctx;
    }
}

#[test]
fn parse_errors_report_positions() {
    match parse("1 + ") {
        Err(errs) => {
            assert_eq!(errs.len(), 1);
            assert!(errs[0].found.is_none());
            assert_eq!(errs[0].position, 4);
        },
        Ok(_) => panic!("expected a parse error"),
    }
    match parse("(1 + 2") {
        Err(errs) => {
            assert!(errs[0].found.is_none());
            assert_eq!(errs[0].unclosed, Some((0, '(')));
        },
        Ok(_) => panic!("expected an unclosed delimiter"),
    }
    match parse("1 2") {
        Err(errs) => {
            assert!(errs[0].found.is_some());
            assert_eq!(errs[0].position, 2);
        },
        Ok(_) => panic!("expected a leftover-input error"),
    }
}
