use savage::expression::Expression;
use savage::helpers::{and, eq, fun, integer, logical_not, matrix, neg, or, pow, ratd, sum,
    difference, product, quotient, var, vector};
use savage::parse::parse;

fn t(string: &str, expression: Expression) {
    let parsed = parse(string).unwrap();
    assert!(parsed == expression, "parse mismatch for {:?}", string);
}

#[test]
fn variables() {
    t("a   ", var("a"));
    t("     A", var("A"));
    t("  Named_Variable ", var("Named_Variable"));
    t("Named_Variable", var("Named_Variable"));
}

#[test]
fn functions() {
    t(" f(   )   ", fun(var("f"), vec![]));
    t("f ( a) ", fun(var("f"), vec![var("a")]));
    t("f( a, 1  )", fun(var("f"), vec![var("a"), integer(1)]));
    t(
        " f(  g(a ),h(   b )  ) ",
        fun(
            var("f"),
            vec![fun(var("g"), vec![var("a")]), fun(var("h"), vec![var("b")])],
        ),
    );
    t(
        " ( f ( a ) ) ( b ) ",
        fun(fun(var("f"), vec![var("a")]), vec![var("b")]),
    );
    t("(f +g)( a)", fun(sum(var("f"), var("g")), vec![var("a")]));
}

#[test]
fn parse_integers() {
    t("0", integer(0));
    t("  1", integer(1));
    t("1234567890  ", integer(1234567890));
    t("  9876543210  ", integer(9876543210));
}

#[test]
fn parse_rational_numbers() {
    t("0.5", ratd(1, 2));
    t(" 1.5", ratd(3, 2));
    t("3.075 ", ratd(123, 40));
    t(" 100.000 ", ratd(100, 1));
}

#[test]
fn parse_vectors() {
    t(" [ ] ", vector(vec![]));
    t("[   1]", vector(vec![integer(1)]));
    t(" [1,2,   3 ]", vector(vec![integer(1), integer(2), integer(3)]));
    t(
        "[  1,f(a,1),[   1,2,3  ] ]  ",
        vector(vec![
            integer(1),
            fun(var("f"), vec![var("a"), integer(1)]),
            vector(vec![integer(1), integer(2), integer(3)]),
        ]),
    );
}

#[test]
fn parse_matrices() {
    t("[[1   ]   ]   ", matrix(vec![vec![integer(1)]]));
    t(
        "[ [ 1,2,3 ] ]",
        matrix(vec![vec![integer(1), integer(2), integer(3)]]),
    );
    t(
        " [[  1, 2,3 ],[ 4,5, 6]]",
        matrix(vec![
            vec![integer(1), integer(2), integer(3)],
            vec![integer(4), integer(5), integer(6)],
        ]),
    );
    t(
        "  [[f ( ) ,2, [1 ] ], [[ [ 1]],3.075,6] ] ",
        matrix(vec![
            vec![fun(var("f"), vec![]), integer(2), vector(vec![integer(1)])],
            vec![matrix(vec![vec![integer(1)]]), ratd(123, 40), integer(6)],
        ]),
    );
}

#[test]
fn booleans() {
    t("   true", Expression::Boolean(true));
    t("false   ", Expression::Boolean(false));
}

#[test]
fn parse_operators() {
    t("  - 1 ", neg(integer(1)));
    t(" - (-    1 )", neg(neg(integer(1))));
    t("!A  ", logical_not(var("A")));
    t(" !( ! A)", logical_not(logical_not(var("A"))));

    t("1+2    +3   ", sum(sum(integer(1), integer(2)), integer(3)));
    t(" 1 +2- 3 ", difference(sum(integer(1), integer(2)), integer(3)));
    t("1  -2 +    3", sum(difference(integer(1), integer(2)), integer(3)));
    t("1-2-3", difference(difference(integer(1), integer(2)), integer(3)));
    t(" 1-(2 + 3)", difference(integer(1), sum(integer(2), integer(3))));
    t("1 - (2 - 3)", difference(integer(1), difference(integer(2), integer(3))));

    t(" 1 *2* 3 ", product(product(integer(1), integer(2)), integer(3)));
    t("1*2 / 3", quotient(product(integer(1), integer(2)), integer(3)));
    t("1 / 2*3  ", product(quotient(integer(1), integer(2)), integer(3)));
    t("  1/2/3", quotient(quotient(integer(1), integer(2)), integer(3)));
    t("1 /(  2 *3) ", quotient(integer(1), product(integer(2), integer(3))));
    t(" 1/ (2 /3)", quotient(integer(1), quotient(integer(2), integer(3))));

    t("(1+2)   /3 ", quotient(sum(integer(1), integer(2)), integer(3)));
    t("  1/ 2 +3", sum(quotient(integer(1), integer(2)), integer(3)));
    t("1 + 2 / 3", sum(integer(1), quotient(integer(2), integer(3))));
    t("1/ (2+3)     ", quotient(integer(1), sum(integer(2), integer(3))));

    t("(1 * 2)^3", pow(product(integer(1), integer(2)), integer(3)));
    t("1^2 * 3 ", product(pow(integer(1), integer(2)), integer(3)));
    t("1*  2  ^3", product(integer(1), pow(integer(2), integer(3))));
    t(" 1^( 2 * 3 )", pow(integer(1), product(integer(2), integer(3))));

    t(" (1^2)  ^  3", pow(pow(integer(1), integer(2)), integer(3)));
    t("1 ^2 ^3 ", pow(integer(1), pow(integer(2), integer(3))));

    t("A&&B&&C", and(and(var("A"), var("B")), var("C")));
    t("A  &&  B||C", or(and(var("A"), var("B")), var("C")));
    t(" ( A || B ) && C ", and(or(var("A"), var("B")), var("C")));
    t("A||B ||C", or(or(var("A"), var("B")), var("C")));
    t("A&& ( B|| C)", and(var("A"), or(var("B"), var("C"))));
    t("   A|| B &&C", or(var("A"), and(var("B"), var("C"))));

    t("a ==b ", eq(var("a"), var("b")));
}
