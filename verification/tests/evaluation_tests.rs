use engine::evaluation::{join_texts, Text};
use engine::evaluation::integer_update;
use engine::evaluation::{assignment_step, AssignmentStep};
use engine::evaluation::{holds, if_step, IfAction};
use engine::evaluation::{boolean_operation, evaluation_step, input_value, EvaluationStep, InputValue, ValueKind};
use engine::syntax_tree::OperatorType;
use engine::tokens::TokenType;

#[test]
fn a_double_makes_a_double_operation() {
    assert_eq!(
        evaluation_step(OperatorType::Plus, Some(ValueKind::Integer), Some(ValueKind::Double), 1, 1),
        Ok(EvaluationStep::DoubleArithmetic)
    );
    assert_eq!(
        evaluation_step(OperatorType::LessThan, Some(ValueKind::Double), Some(ValueKind::Integer), 1, 1),
        Ok(EvaluationStep::DoubleComparison)
    );
}

#[test]
fn integer_operations() {
    assert_eq!(
        evaluation_step(OperatorType::Mod, Some(ValueKind::Integer), Some(ValueKind::Integer), 1, 1),
        Ok(EvaluationStep::IntegerArithmetic)
    );
    assert_eq!(
        evaluation_step(OperatorType::Div, Some(ValueKind::Integer), Some(ValueKind::Integer), 1, 1),
        Ok(EvaluationStep::IntegerDivision)
    );
    assert_eq!(
        evaluation_step(OperatorType::Equal, Some(ValueKind::Integer), Some(ValueKind::Integer), 1, 1),
        Ok(EvaluationStep::IntegerComparison)
    );
}

#[test]
fn texts_join() {
    assert_eq!(
        evaluation_step(OperatorType::Plus, Some(ValueKind::Character), Some(ValueKind::String), 1, 1),
        Ok(EvaluationStep::Concat)
    );
    assert_eq!(
        evaluation_step(OperatorType::Plus, Some(ValueKind::Character), Some(ValueKind::Character), 1, 1),
        Ok(EvaluationStep::CharacterConcat)
    );
    assert_eq!(
        evaluation_step(OperatorType::And, Some(ValueKind::Boolean), Some(ValueKind::Boolean), 1, 1),
        Ok(EvaluationStep::BooleanOperation)
    );
}

#[test]
fn values_of_no_kind_are_refused() {
    assert_eq!(
        evaluation_step(OperatorType::GreaterThan, None, None, 3, 14),
        Err(String::from("Engine Interpreter: Syntax Error -> Undefined operator GreaterThan behavior, line 3:14."))
    );
}

#[test]
fn booleans_compare_with_false_below_true() {
    assert!(boolean_operation(OperatorType::GreaterThan, true, false));
    assert!(!boolean_operation(OperatorType::LessThan, true, false));
    assert!(boolean_operation(OperatorType::LessThanOrEqual, false, false));
    assert!(!boolean_operation(OperatorType::NotEqual, true, true));
    assert!(boolean_operation(OperatorType::Or, false, true));
    assert!(!boolean_operation(OperatorType::And, false, true));
}

#[test]
fn input_lines_read_as_values() {
    assert_eq!(input_value(TokenType::Bool, "false", 1, 1), Ok(InputValue::Boolean(false)));
    assert_eq!(input_value(TokenType::Int, "-12", 1, 1), Ok(InputValue::Integer(-12)));
    assert_eq!(input_value(TokenType::Char, "é", 1, 1), Ok(InputValue::Character('é')));
    assert_eq!(input_value(TokenType::Double, "1.5", 1, 1), Ok(InputValue::DoubleText(String::from("1.5"))));
    assert_eq!(input_value(TokenType::String, "a b", 1, 1), Ok(InputValue::String(String::from("a b"))));
    assert_eq!(input_value(TokenType::Plus, "x", 1, 1), Ok(InputValue::Nothing));
}

#[test]
fn input_lines_that_are_no_value() {
    assert_eq!(
        input_value(TokenType::Bool, "True", 2, 9),
        Err(String::from("Engine Interpreter: Execute Error -> Failed to convert from `String` to `Bool`, line 2:9."))
    );
    assert_eq!(
        input_value(TokenType::Char, "ab", 2, 9),
        Err(String::from("Engine Interpreter: Execute Error -> Failed to convert from `String` to `Char`, line 2:9."))
    );
    assert_eq!(
        input_value(TokenType::Int, "1.0", 4, 1),
        Err(String::from("Engine Interpreter: Execute Error -> Failed to convert from `String` to `Int`, line 4:1."))
    );
}

#[test]
fn assignments_choose_their_step() {
    assert_eq!(assignment_step(false, TokenType::PlusEqual, TokenType::BadToken), AssignmentStep::Define);
    assert_eq!(assignment_step(true, TokenType::Assign, TokenType::Int), AssignmentStep::Replace);
    assert_eq!(assignment_step(true, TokenType::MinusEqual, TokenType::String), AssignmentStep::Append);
    assert_eq!(assignment_step(true, TokenType::MulEqual, TokenType::Double), AssignmentStep::DoubleUpdate);
    assert_eq!(assignment_step(true, TokenType::DivEqual, TokenType::Int), AssignmentStep::IntegerUpdate);
    assert_eq!(assignment_step(true, TokenType::PlusEqual, TokenType::Bool), AssignmentStep::Clear);
}

#[test]
fn integer_updates_as_rust_computes_them() {
    assert_eq!(integer_update(TokenType::PlusEqual, 7, 5), Some(12));
    assert_eq!(integer_update(TokenType::DivEqual, -7, 2), Some(-3));
    assert_eq!(integer_update(TokenType::ModEqual, -7, 2), Some(-1));
    assert_eq!(integer_update(TokenType::DivEqual, 1, 0), None);
    assert_eq!(integer_update(TokenType::MulEqual, i64::MAX, 2), None);
}

#[test]
fn if_statements_run_the_first_holding_branch() {
    assert_eq!(if_step(false, 0, 2, true), IfAction::TryBranch(0));
    assert_eq!(if_step(true, 1, 2, true), IfAction::Finish);
    assert_eq!(if_step(false, 2, 2, true), IfAction::RunElse);
    assert_eq!(if_step(false, 2, 2, false), IfAction::Finish);
    assert!(holds(Some(true)));
    assert!(!holds(Some(false)));
    assert!(!holds(None));
}

#[test]
fn a_character_joins_a_string_on_either_side() {
    assert_eq!(join_texts(&Text::Character('a'), &Text::String(String::from("bc"))), "abc");
    assert_eq!(join_texts(&Text::String(String::from("ab")), &Text::Character('c')), "abc");
}

#[test]
fn two_characters_join_into_a_string() {
    assert_eq!(join_texts(&Text::Character('x'), &Text::Character('y')), "xy");
}

#[test]
fn two_strings_join_left_first() {
    assert_eq!(join_texts(&Text::String(String::from("hello")), &Text::String(String::from(", world!!!!"))), "hello, world!!!!");
    assert_eq!(join_texts(&Text::String(String::new()), &Text::String(String::new())), "");
}
