//! End-to-end checks of the execution facade: tokenizing, parsing and
//! evaluation of whole scripts, with the uniform result record.
use minilang::{compile_and_run, Lexer, Token};

const SCALE: u128 = 1_000_000_000;

fn run(src: &str) -> minilang::CompilationResult {
    compile_and_run(String::from(src))
}

#[test]
fn number_literal_tokenizes_exactly() {
    let mut lexer = Lexer::new(String::from("3.14"));
    let tokens = lexer.tokenize().unwrap();
    assert_eq!(tokens.len(), 2);
    match &tokens[0] {
        Token::Number(n) => {
            assert!(!n.neg);
            assert_eq!(n.mag, 3_140_000_000);
        }
        _ => panic!("expected a number token"),
    }
    assert!(matches!(tokens[1], Token::Eof));
}

#[test]
fn string_literal_keeps_inner_text() {
    let mut lexer = Lexer::new(String::from("\"привет мир\""));
    let tokens = lexer.tokenize().unwrap();
    assert_eq!(tokens.len(), 2);
    match &tokens[0] {
        Token::StrLit(s) => assert_eq!(s, "привет мир"),
        _ => panic!("expected a string token"),
    }
}

#[test]
fn unterminated_string_reaches_end_of_input() {
    let mut lexer = Lexer::new(String::from("\"аб"));
    let tokens = lexer.tokenize().unwrap();
    match &tokens[0] {
        Token::StrLit(s) => assert_eq!(s, "аб"),
        _ => panic!("expected a string token"),
    }
}

#[test]
fn malformed_numeral_falls_back_to_zero() {
    let r = run("печать(1.2.3);");
    assert!(r.success);
    assert_eq!(r.output, "0\n");
}

#[test]
fn bang_without_equals_is_a_lexical_fault() {
    let r = run("печать(1 ! 2);");
    assert!(!r.success);
    assert_eq!(r.errors, vec![String::from("Ошибка лексического анализа")]);
}

#[test]
fn unknown_character_is_a_lexical_fault() {
    let r = run("печать(@);");
    assert!(!r.success);
    assert_eq!(r.errors.len(), 1);
    assert_eq!(r.errors[0], "Ошибка лексического анализа");
    assert_eq!(r.output, "");
}

#[test]
fn comments_are_insignificant() {
    let r = run("// строка\nпечать(1); /* блок\nещё */ печать(2);");
    assert!(r.success);
    assert_eq!(r.output, "1\n2\n");
}

#[test]
fn precedence_multiplication_binds_tighter() {
    let r = run("печать(1 + 2 * 3);");
    assert!(r.success);
    assert_eq!(r.output, "7\n");
}

#[test]
fn precedence_order_of_terms_is_immaterial() {
    let r = run("печать(2 * 3 + 1);");
    assert!(r.success);
    assert_eq!(r.output, "7\n");
}

#[test]
fn precedence_comparison_is_lowest() {
    let r = run("печать(1 + 2 == 3);");
    assert!(r.success);
    assert_eq!(r.output, "истина\n");
}

#[test]
fn parenthesized_expression_overrides_precedence() {
    let r = run("печать((1 + 2) * 3);");
    assert!(r.success);
    assert_eq!(r.output, "9\n");
}

#[test]
fn call_isolation_hides_caller_locals() {
    let r = run("пусть x = 1; функция f() { вернуть x; } печать(f());");
    assert!(!r.success);
    assert_eq!(r.errors, vec![String::from("Переменная 'x' не найдена")]);
    assert_eq!(r.output, "");
}

#[test]
fn caller_environment_restored_after_call() {
    let r = run("пусть x = 1; функция f(x) { вернуть x + 1; } печать(f(5)); печать(x);");
    assert!(r.success);
    assert_eq!(r.output, "6\n1\n");
}

#[test]
fn arity_mismatch_names_the_function() {
    let r = run("функция f(a, b) { вернуть a; } f(1);");
    assert!(!r.success);
    assert_eq!(
        r.errors,
        vec![String::from("Функция 'f' ожидает 2 аргументов, получено 1")]
    );
}

#[test]
fn sqrt_rejects_negative_argument() {
    let r = run("пусть x = корень(0 - 1);");
    assert!(!r.success);
    assert_eq!(r.errors, vec![String::from("Аргумент корень должен быть >=0")]);
}

#[test]
fn log_rejects_nonpositive_argument() {
    let r = run("пусть x = лог(0);");
    assert!(!r.success);
    assert_eq!(r.errors, vec![String::from("Аргумент лог должен быть >0")]);
}

#[test]
fn division_by_zero_fails() {
    let r = run("печать(1 / 0);");
    assert!(!r.success);
    assert_eq!(r.errors, vec![String::from("Деление на ноль")]);
}

#[test]
fn end_to_end_success_square() {
    let r = run("функция square(x) { вернуть x * x; }\nпусть n = 5;\nпечать(square(n));");
    assert!(r.success);
    assert_eq!(r.output, "25\n");
    assert!(r.errors.is_empty());
    assert!(r.plots.is_empty());
}

#[test]
fn end_to_end_failure_division_by_zero() {
    let r = run("пусть x = 1 / 0;");
    assert!(!r.success);
    assert_eq!(r.errors, vec![String::from("Деление на ноль")]);
    assert_eq!(r.output, "");
}

#[test]
fn plot_samples_two_hundred_one_points_linearly() {
    let r = run("функция f(x) { вернуть x; } график(f, 0, 10);");
    assert!(r.success, "errors: {:?}", r.errors);
    assert_eq!(r.plots.len(), 1);
    let plot = &r.plots[0];
    assert_eq!(plot.points.len(), 201);
    assert_eq!(plot.label, "f");
    assert_eq!(plot.color, "#0066cc");
    let step = SCALE / 20;
    for (i, (x, y)) in plot.points.iter().enumerate() {
        assert!(!x.neg);
        assert_eq!(x.mag, i as u128 * step);
        assert_eq!(y.mag, x.mag);
        assert_eq!(y.neg, x.neg);
    }
    assert_eq!(plot.points[200].0.mag, 10 * SCALE);
}

#[test]
fn plot_needs_three_arguments() {
    let r = run("функция f(x) { вернуть x; } график(f);");
    assert!(!r.success);
    assert_eq!(r.errors, vec![String::from("график требует: функция, от, до")]);
}

#[test]
fn plot_function_must_take_one_parameter() {
    let r = run("функция f(a, b) { вернуть a; } график(f, 0, 1);");
    assert!(!r.success);
    assert_eq!(
        r.errors,
        vec![String::from("Функция для графика должна иметь 1 параметр, получено 2")]
    );
}

#[test]
fn plot_drops_non_numeric_samples() {
    let r = run("функция f(x) { вернуть истина; } график(f, 0, 1);");
    assert!(r.success);
    assert_eq!(r.plots.len(), 1);
    assert_eq!(r.plots[0].points.len(), 0);
}

#[test]
fn output_before_failure_is_preserved() {
    let r = run("печать(1); печать(2 / 0);");
    assert!(!r.success);
    assert_eq!(r.output, "1\n");
    assert_eq!(r.errors, vec![String::from("Деление на ноль")]);
}

#[test]
fn while_loop_accumulates() {
    let r = run("пусть s = 0; пусть i = 0; пока (i < 5) { s = s + i; i = i + 1; } печать(s);");
    assert!(r.success);
    assert_eq!(r.output, "10\n");
}

#[test]
fn if_else_takes_the_right_branch() {
    let r = run("если (1 > 2) { печать(1); } иначе { печать(2); }");
    assert!(r.success);
    assert_eq!(r.output, "2\n");
}

#[test]
fn non_boolean_condition_fails() {
    let r = run("если (1) { печать(1); }");
    assert!(!r.success);
    assert_eq!(r.errors, vec![String::from("Условие должно быть булевым")]);
}

#[test]
fn assignment_is_an_expression() {
    let r = run("пусть x = 1; печать(x = 5); печать(x);");
    assert!(r.success);
    assert_eq!(r.output, "5\n5\n");
}

#[test]
fn string_concatenation_with_plus() {
    let r = run("печать(\"аб\" + \"вг\");");
    assert!(r.success);
    assert_eq!(r.output, "абвг\n");
}

#[test]
fn mixed_operands_are_unsupported() {
    let r = run("печать(1 + \"а\");");
    assert!(!r.success);
    assert_eq!(r.errors, vec![String::from("Неподдерживаемая операция")]);
}

#[test]
fn print_joins_arguments_with_spaces() {
    let r = run("печать(1, \"и\", истина);");
    assert!(r.success);
    assert_eq!(r.output, "1 и истина\n");
}

#[test]
fn empty_function_result_prints_placeholder() {
    let r = run("функция f() { } печать(f());");
    assert!(r.success);
    assert_eq!(r.output, "пусто\n");
}

#[test]
fn short_function_keyword_spelling() {
    let r = run("фн f() { вернуть 1; } печать(f());");
    assert!(r.success);
    assert_eq!(r.output, "1\n");
}

#[test]
fn redeclaration_overwrites_function() {
    let r = run("функция f() { вернуть 1; } функция f() { вернуть 2; } печать(f());");
    assert!(r.success);
    assert_eq!(r.output, "2\n");
}

#[test]
fn missing_semicolon_reports_expected_pair() {
    let r = run("пусть x = 1");
    assert!(!r.success);
    assert_eq!(r.errors, vec![String::from("Ожидался ;, получен конец файла")]);
}

#[test]
fn let_without_identifier_fails() {
    let r = run("пусть = 1;");
    assert!(!r.success);
    assert_eq!(r.errors, vec![String::from("Ожидался идентификатор")]);
}

#[test]
fn function_without_name_fails() {
    let r = run("функция () { }");
    assert!(!r.success);
    assert_eq!(r.errors, vec![String::from("Ожидалось имя функции")]);
}

#[test]
fn unknown_function_call_fails() {
    let r = run("печать(g(1));");
    assert!(!r.success);
    assert_eq!(r.errors, vec![String::from("Функция 'g' не найдена")]);
}

#[test]
fn fractional_division_prints_decimal_text() {
    let r = run("печать(10 / 4);");
    assert!(r.success);
    assert_eq!(r.output, "2.5\n");
}

#[test]
fn negative_results_carry_the_sign() {
    let r = run("печать(1 - 3);");
    assert!(r.success);
    assert_eq!(r.output, "-2\n");
}

#[test]
fn sqrt_of_a_perfect_square_is_exact() {
    let r = run("печать(корень(4));");
    assert!(r.success);
    assert_eq!(r.output, "2\n");
}

#[test]
fn exp_of_zero_is_one() {
    let r = run("печать(эксп(0));");
    assert!(r.success);
    assert_eq!(r.output, "1\n");
}

#[test]
fn sin_of_zero_is_zero() {
    let r = run("печать(син(0));");
    assert!(r.success);
    assert_eq!(r.output, "0\n");
}

#[test]
fn log_of_one_is_zero() {
    let r = run("печать(лог(1));");
    assert!(r.success);
    assert_eq!(r.output, "0\n");
}

#[test]
fn cyrillic_identifiers_are_accepted() {
    let r = run("пусть счётчик = 3; печать(счётчик);");
    assert!(r.success);
    assert_eq!(r.output, "3\n");
}
