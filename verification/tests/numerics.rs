//! Checks of the numeric built-ins through whole scripts: exact values where
//! the arithmetic is exact, tight ranges for the series approximations.
use minilang::compile_and_run;

fn run(src: &str) -> minilang::CompilationResult {
    compile_and_run(String::from(src))
}

fn truthy(src: &str) {
    let r = run(src);
    assert!(r.success, "errors: {:?}", r.errors);
    assert_eq!(r.output, "истина\n", "source: {}", src);
}

#[test]
fn exact_decimal_arithmetic() {
    let r = run("печать(0.1 + 0.2);");
    assert!(r.success);
    assert_eq!(r.output, "0.3\n");
}

#[test]
fn multiplication_of_fractions_truncates_at_nine_places() {
    let r = run("печать(2.5 * 0.4);");
    assert!(r.success);
    assert_eq!(r.output, "1\n");
}

#[test]
fn comparison_operators_on_numbers() {
    truthy("печать(2 >= 2);");
    truthy("печать(1 != 2);");
    truthy("печать(0 - 3 < 0 - 2);");
}

#[test]
fn sine_near_quarter_turn_is_near_one() {
    truthy("печать(син(1.5707963) > 0.999);");
    truthy("печать(син(1.5707963) < 1.001);");
}

#[test]
fn sine_is_odd() {
    truthy("печать(син(0 - 1) == 0 - син(1));");
}

#[test]
fn cosine_of_zero_is_near_one() {
    truthy("печать(кос(0) > 0.999);");
    truthy("печать(кос(0) < 1.001);");
}

#[test]
fn exponential_of_one_is_near_its_base() {
    truthy("печать(эксп(1) > 2.717);");
    truthy("печать(эксп(1) < 2.72);");
}

#[test]
fn exponential_of_negative_is_reciprocal() {
    truthy("печать(эксп(0 - 1) > 0.367);");
    truthy("печать(эксп(0 - 1) < 0.369);");
}

#[test]
fn logarithm_of_the_base_is_near_one() {
    truthy("печать(лог(2.718281828) > 0.999);");
    truthy("печать(лог(2.718281828) < 1.001);");
}

#[test]
fn logarithm_below_one_is_negative() {
    truthy("печать(лог(0.5) < 0);");
    truthy("печать(лог(0.5) > 0 - 0.694);");
}

#[test]
fn square_root_truncates() {
    let r = run("печать(корень(2));");
    assert!(r.success);
    assert_eq!(r.output, "1.414213562\n");
}

#[test]
fn overflowing_product_is_a_fault() {
    let r = run("пусть big = 100000000000000000000;\nпечать(big * big);");
    assert!(!r.success);
    assert_eq!(r.errors, vec![String::from("Переполнение числа")]);
}
