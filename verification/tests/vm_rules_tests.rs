use engine::vm::rules::concat_values;
use engine::vm::rules::integer_operation;
use engine::text::parse_i64;
use engine::vm::rules::{
    assign_value, convert_value, operation_step, undefined_variable_error, Computed, OperationStep, PlainValue,
};
use engine::vm::tokens::TokenType;

#[test]
fn operation_plus_of_strings_concatenates() {
    let r = operation_step(TokenType::Plus, TokenType::String, TokenType::String, TokenType::String, 3, 4);
    assert_eq!(r, Ok(OperationStep::Concat));
}

#[test]
fn operation_arithmetic_steps() {
    assert_eq!(
        operation_step(TokenType::Minus, TokenType::Int, TokenType::Int, TokenType::Int, 1, 1),
        Ok(OperationStep::IntArithmetic)
    );
    assert_eq!(
        operation_step(TokenType::Div, TokenType::Double, TokenType::Double, TokenType::Double, 1, 1),
        Ok(OperationStep::DoubleArithmetic)
    );
    assert_eq!(
        operation_step(TokenType::And, TokenType::Bool, TokenType::Bool, TokenType::Bool, 1, 1),
        Ok(OperationStep::Logic)
    );
    assert_eq!(
        operation_step(TokenType::LessThan, TokenType::Bool, TokenType::Int, TokenType::Double, 1, 1),
        Ok(OperationStep::Compare)
    );
}

#[test]
fn operation_mod_of_doubles() {
    assert_eq!(
        operation_step(TokenType::Mod, TokenType::Double, TokenType::Double, TokenType::Double, 1, 1),
        Ok(OperationStep::DoubleArithmetic)
    );
    assert_eq!(
        operation_step(TokenType::Mod, TokenType::String, TokenType::Int, TokenType::Int, 1, 1),
        Err(String::from(
            "Engine VM: Operation Instruction -> Can't do operation `Mod` to type `String` and `Int` and `Int`, instruction line: 1, line: 1."
        ))
    );
}

#[test]
fn operation_refused_target_message() {
    let r = operation_step(TokenType::Plus, TokenType::Bool, TokenType::Int, TokenType::Char, 7, 9);
    assert_eq!(
        r,
        Err(String::from(
            "Engine VM: Operation Instruction -> Can't do operation `Plus` to type `Bool` and `Int` and `Char`, instruction line: 7, line: 9."
        ))
    );
}

#[test]
fn operation_refused_operands_message() {
    let r = operation_step(TokenType::Mul, TokenType::Int, TokenType::Int, TokenType::Double, 2, 5);
    assert_eq!(
        r,
        Err(String::from(
            "Engine VM: Operation Instruction -> Can't do operation `Mul` to type `Int` and `Int` and `Double`, instruction line: 2, line: 5."
        ))
    );
}

#[test]
fn operation_comparison_messages() {
    let r = operation_step(TokenType::GreaterThan, TokenType::Bool, TokenType::String, TokenType::Int, 1, 2);
    assert_eq!(
        r,
        Err(String::from(
            "Engine VM: Operation Instruction -> Can't do operation `GreaterThan` to type Bool and types `String` and `Int`, instruction line: 1, line: 2."
        ))
    );
    let r = operation_step(TokenType::NotEqual, TokenType::Bool, TokenType::Char, TokenType::Int, 1, 2);
    assert_eq!(
        r,
        Err(String::from(
            "Engine VM: Operation Instruction -> Can't do operation `NotEqual` to type `Bool` and `Char` and `Int`, instruction line: 1, line: 2."
        ))
    );
    let r = operation_step(TokenType::Equal, TokenType::Int, TokenType::Int, TokenType::Int, 1, 2);
    assert_eq!(
        r,
        Err(String::from(
            "Engine VM: Operation Instruction -> Can't do operation `Equal` to type `Int` and `Int` and `Int`, instruction line: 1, line: 2."
        ))
    );
    for op in [TokenType::Equal, TokenType::NotEqual, TokenType::LessThanOrEqual] {
        assert_eq!(
            operation_step(op, TokenType::Bool, TokenType::Int, TokenType::Double, 1, 2),
            Ok(OperationStep::Compare)
        );
    }
}

#[test]
fn convert_string_to_bool() {
    let from = PlainValue::String(String::from("true"));
    assert_eq!(convert_value(TokenType::Bool, TokenType::Bool, "\"b\"", &from, "", 1, 1), Ok(Computed::Boolean(true)));
    let from = PlainValue::String(String::from("True"));
    assert_eq!(
        convert_value(TokenType::Bool, TokenType::Bool, "\"b\"", &from, "", 4, 6),
        Err(String::from(
            "Engine VM: Convert Instruction -> Can't convert type `String` to type `Bool`, instruction line: 4, line: 6."
        ))
    );
}

#[test]
fn convert_number_to_bool_is_refused_with_the_value() {
    let from = PlainValue::Integer(-42);
    assert_eq!(
        convert_value(TokenType::Bool, TokenType::Bool, "\"b\"", &from, "", 3, 3),
        Err(String::from("Engine VM: Convert Instruction -> Can't convert `-42` to `Bool`, instruction line: 3, line: 3."))
    );
    assert_eq!(
        convert_value(TokenType::Char, TokenType::Char, "\"c\"", &PlainValue::Double, "2.5", 3, 3),
        Err(String::from("Engine VM: Convert Instruction -> Can't convert `2.5` to `Char`, instruction line: 3, line: 3."))
    );
}

#[test]
fn convert_string_to_int() {
    let from = PlainValue::String(String::from("-17"));
    assert_eq!(convert_value(TokenType::Int, TokenType::Int, "\"i\"", &from, "", 1, 1), Ok(Computed::Integer(-17)));
    let from = PlainValue::String(String::from("12a"));
    assert_eq!(
        convert_value(TokenType::Int, TokenType::Double, "\"i\"", &from, "", 1, 2),
        Err(String::from(
            "Engine VM: Convert Instruction -> Can't convert type `String` to type `Int`, instruction line: 1, line: 2."
        ))
    );
}

#[test]
fn convert_to_a_wrong_target() {
    let from = PlainValue::Integer(1);
    assert_eq!(
        convert_value(TokenType::Double, TokenType::String, "\"x\"", &from, "", 8, 9),
        Err(String::from(
            "Engine VM: Convert Instruction -> Variable `\"x\"` is not of type `Int` or `Double`, instruction line: 8, line: 9."
        ))
    );
    assert_eq!(convert_value(TokenType::Double, TokenType::Int, "\"x\"", &from, "", 8, 9), Ok(Computed::DoubleOfInteger(1)));
}

#[test]
fn convert_to_char_and_string() {
    let from = PlainValue::String(String::from("héllo"));
    assert_eq!(convert_value(TokenType::Char, TokenType::String, "\"c\"", &from, "", 1, 1), Ok(Computed::Character('h')));
    let from = PlainValue::String(String::new());
    assert_eq!(
        convert_value(TokenType::Char, TokenType::Char, "\"c\"", &from, "", 1, 1),
        Err(String::from(
            "Engine VM: Convert Instruction -> Can't convert type `String` to type `Char`, instruction line: 1, line: 1."
        ))
    );
    let from = PlainValue::Character('z');
    assert_eq!(
        convert_value(TokenType::String, TokenType::String, "\"s\"", &from, "", 1, 1),
        Ok(Computed::String(String::from("z")))
    );
    let from = PlainValue::Boolean(true);
    assert_eq!(
        convert_value(TokenType::String, TokenType::String, "\"s\"", &from, "", 1, 1),
        Err(String::from(
            "Engine VM: Convert Instruction -> Can't convert from type `Bool` to `String`, instruction line: 1, line: 1."
        ))
    );
}

#[test]
fn convert_with_an_unknown_type() {
    assert_eq!(
        convert_value(TokenType::BadToken, TokenType::Int, "", &PlainValue::Double, "", 5, 6),
        Err(String::from(
            "Engine VM: Convert Instruction -> Unknown Conversion type `BadToken`, instruction line: 5, line: 6."
        ))
    );
    assert_eq!(convert_value(TokenType::Plus, TokenType::Int, "", &PlainValue::Double, "", 5, 6), Ok(Computed::Keep));
}

#[test]
fn assign_values() {
    assert_eq!(assign_value(TokenType::Bool, "True", "\"True\"", 1, 1), Ok(Computed::Boolean(true)));
    assert_eq!(assign_value(TokenType::Int, "+300", "\"+300\"", 1, 1), Ok(Computed::Integer(300)));
    assert_eq!(assign_value(TokenType::Double, "2.5", "\"2.5\"", 1, 1), Ok(Computed::DoubleOfText(String::from("2.5"))));
    assert_eq!(assign_value(TokenType::Char, "'\\n'", "\"'\\\\n'\"", 1, 1), Ok(Computed::Character('\n')));
    assert_eq!(
        assign_value(TokenType::String, "\"a\\tb\"", "\"\\\"a\\\\tb\\\"\"", 1, 1),
        Ok(Computed::String(String::from("a\tb")))
    );
}

#[test]
fn assign_errors() {
    assert_eq!(
        assign_value(TokenType::Bool, "true", "\"true\"", 2, 3),
        Err(String::from("Engine VM: Assign Instruction -> Invalid Bool value `\"true\"`, instruction line: 2, line: 3."))
    );
    assert_eq!(
        assign_value(TokenType::Int, "9223372036854775808", "\"9223372036854775808\"", 2, 3),
        Err(String::from(
            "Engine VM: Assign Instruction -> Invalid Int value `\"9223372036854775808\"`, instruction line: 2, line: 3."
        ))
    );
    assert_eq!(
        assign_value(TokenType::String, "x", "\"x\"", 2, 3),
        Err(String::from("Engine VM: Assign Instruction -> Invalid String `\"x\"`, instruction line: 2, line: 3."))
    );
    assert_eq!(
        assign_value(TokenType::BadToken, "x", "\"x\"", 2, 3),
        Err(String::from("Engine VM: Assign Instruction -> Unknown Assign type `BadToken`, instruction line: 2, line: 3."))
    );
}

#[test]
fn undefined_variable_message() {
    assert_eq!(
        undefined_variable_error("Print", "\"v\"", 4, 5),
        String::from("Engine VM: Print Instruction -> Variable `\"v\"` is undefined, instruction line: 4, line: 5.")
    );
}

#[test]
fn parse_i64_as_std() {
    for text in ["0", "-0", "+12", "-9223372036854775808", "9223372036854775807", "9223372036854775808", "-", "+", "", "1_0", "-+1", " 1"] {
        assert_eq!(parse_i64(text), text.parse::<i64>().ok(), "{}", text);
    }
}

#[test]
fn machine_integer_arithmetic() {
    assert_eq!(integer_operation(TokenType::Plus, 2, 3), Some(5));
    assert_eq!(integer_operation(TokenType::Minus, 2, 3), Some(-1));
    assert_eq!(integer_operation(TokenType::Mod, -9, 4), Some(-1));
    assert_eq!(integer_operation(TokenType::Mod, 9, 0), None);
    assert_eq!(integer_operation(TokenType::Plus, i64::MAX, 1), None);
}

#[test]
fn concat_joins_two_strings_left_first() {
    let r = concat_values(&PlainValue::String(String::from("hello")), &PlainValue::String(String::from(", world")));
    assert_eq!(r, Some(String::from("hello, world")));
}

#[test]
fn concat_of_a_string_and_an_empty_string_is_the_string() {
    let r = concat_values(&PlainValue::String(String::new()), &PlainValue::String(String::from("ab")));
    assert_eq!(r, Some(String::from("ab")));
}

#[test]
fn concat_refuses_values_that_are_not_strings() {
    assert_eq!(concat_values(&PlainValue::Character('a'), &PlainValue::String(String::from("b"))), None);
    assert_eq!(concat_values(&PlainValue::String(String::from("a")), &PlainValue::Integer(1)), None);
    assert_eq!(concat_values(&PlainValue::Double, &PlainValue::Double), None);
}
