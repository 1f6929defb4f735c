use savage::expression::Expression;
use savage::helpers::{com, comd, difference, integer, matrix, pow, product, quotient, rat,
    ratd, sum, vector};

fn t(expression: Expression, string: &str) {
    assert_eq!(expression.to_text(), string);
}

#[test]
fn print_integers() {
    t(integer(0), "0");
    t(integer(1), "1");
    t(integer(-1), "-1");
    t(integer(1234567890), "1234567890");
    t(integer(-1234567890), "-1234567890");
    t(integer(9876543210), "9876543210");
    t(integer(-9876543210), "-9876543210");
}

#[test]
fn print_rational_numbers() {
    t(rat(0, 1), "0");
    t(ratd(0, 1), "0");
    t(rat(0, -1), "0");
    t(ratd(0, -1), "0");
    t(rat(1, 1), "1");
    t(ratd(1, 1), "1");
    t(rat(-1, 1), "-1");
    t(ratd(-1, 1), "-1");
    t(rat(1, 2), "1/2");
    t(ratd(1, 2), "0.5");
    t(rat(3, 2), "3/2");
    t(ratd(3, 2), "1.5");
    t(rat(1, 3), "1/3");
    t(ratd(1, 3), "1/3");
    t(rat(123, 40), "123/40");
    t(ratd(123, 40), "3.075");
    t(rat(123, -40), "-123/40");
    t(ratd(123, -40), "-3.075");
    t(rat(-123, -40), "123/40");
    t(ratd(-123, -40), "3.075");
}

#[test]
fn complex_numbers() {
    t(com(0, 1, 0, 1), "0");
    t(comd(0, 1, 0, 1), "0");
    t(com(1, 1, 0, 1), "1");
    t(comd(1, 1, 0, 1), "1");
    t(com(0, 1, 1, 1), "i");
    t(comd(0, 1, 1, 1), "i");
    t(com(-1, 1, 0, 1), "-1");
    t(comd(-1, 1, 0, 1), "-1");
    t(com(0, 1, -1, 1), "-i");
    t(comd(0, 1, -1, 1), "-i");
    t(com(1, 1, 1, 1), "1 + i");
    t(comd(1, 1, 1, 1), "1 + i");
    t(com(1, 1, -1, 1), "1 - i");
    t(comd(1, 1, -1, 1), "1 - i");
    t(com(-1, 1, 1, 1), "i - 1");
    t(comd(-1, 1, 1, 1), "i - 1");
    t(com(-1, 1, -1, 1), "-1 - i");
    t(comd(-1, 1, -1, 1), "-1 - i");
    t(com(123, -40, 1, 3), "1/3*i - 123/40");
    t(comd(123, -40, 1, 3), "1/3*i - 3.075");
    t(com(1, 3, 123, 40), "1/3 + 123/40*i");
    t(comd(1, 3, 123, 40), "1/3 + 3.075*i");
}

#[test]
fn print_vectors() {
    t(vector(vec![]), "[]");
    t(vector(vec![integer(1), integer(2)]), "[1, 2]");
}

#[test]
fn print_matrices() {
    t(
        matrix(vec![
            vec![integer(1), integer(2)],
            vec![integer(3), integer(4)],
        ]),
        "[[1, 2], [3, 4]]",
    );
}

#[test]
fn print_operators() {
    t(sum(sum(integer(1), integer(2)), integer(3)), "1 + 2 + 3");
    t(difference(sum(integer(1), integer(2)), integer(3)), "1 + 2 - 3");
    t(sum(difference(integer(1), integer(2)), integer(3)), "1 - 2 + 3");
    t(difference(difference(integer(1), integer(2)), integer(3)), "1 - 2 - 3");
    t(sum(integer(1), sum(integer(2), integer(3))), "1 + 2 + 3");
    t(sum(integer(1), difference(integer(2), integer(3))), "1 + 2 - 3");
    t(difference(integer(1), sum(integer(2), integer(3))), "1 - (2 + 3)");
    t(difference(integer(1), difference(integer(2), integer(3))), "1 - (2 - 3)");

    t(product(product(integer(1), integer(2)), integer(3)), "1 * 2 * 3");
    t(quotient(product(integer(1), integer(2)), integer(3)), "1 * 2 / 3");
    t(product(quotient(integer(1), integer(2)), integer(3)), "1 / 2 * 3");
    t(quotient(quotient(integer(1), integer(2)), integer(3)), "1 / 2 / 3");
    t(product(integer(1), product(integer(2), integer(3))), "1 * 2 * 3");
    t(product(integer(1), quotient(integer(2), integer(3))), "1 * 2 / 3");
    t(quotient(integer(1), product(integer(2), integer(3))), "1 / (2 * 3)");
    t(quotient(integer(1), quotient(integer(2), integer(3))), "1 / (2 / 3)");

    t(quotient(sum(integer(1), integer(2)), integer(3)), "(1 + 2) / 3");
    t(sum(quotient(integer(1), integer(2)), integer(3)), "1 / 2 + 3");
    t(sum(integer(1), quotient(integer(2), integer(3))), "1 + 2 / 3");
    t(quotient(integer(1), sum(integer(2), integer(3))), "1 / (2 + 3)");

    t(pow(product(integer(1), integer(2)), integer(3)), "(1 * 2) ^ 3");
    t(product(pow(integer(1), integer(2)), integer(3)), "1 ^ 2 * 3");
    t(product(integer(1), pow(integer(2), integer(3))), "1 * 2 ^ 3");
    t(pow(integer(1), product(integer(2), integer(3))), "1 ^ (2 * 3)");

    t(pow(pow(integer(1), integer(2)), integer(3)), "(1 ^ 2) ^ 3");
    t(pow(integer(1), pow(integer(2), integer(3))), "1 ^ 2 ^ 3");

    t(pow(integer(1), integer(2)), "1 ^ 2");
    t(pow(integer(-1), integer(2)), "(-1) ^ 2");
    t(pow(rat(1, 2), integer(3)), "(1/2) ^ 3");
    t(pow(ratd(1, 2), integer(3)), "0.5 ^ 3");
    t(pow(com(0, 1, -1, 1), integer(2)), "(-i) ^ 2");
    t(product(com(1, 1, 1, 1), integer(2)), "(1 + i) * 2");
    t(difference(com(1, 1, -1, 1), integer(2)), "1 - i - 2");
    t(difference(integer(2), com(1, 1, -1, 1)), "2 - (1 - i)");
}
