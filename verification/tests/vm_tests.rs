use engine::vm::instructions_construct::construct_instruction;
use engine::vm::syntax_tree::{AssignInstruction, InstructionType};
use engine::vm::tokens::TokenType;

#[test]
fn readme_assign_line() {
    let (ins, n) = construct_instruction(String::from("1:Assign:string:\"temp_1\":\"hello\""), 2).unwrap();
    assert_eq!(n, 1);
    assert_eq!(ins.instruction_type, Some(InstructionType::Assign));
    assert_eq!(
        ins.assign_instruction,
        Some(AssignInstruction {
            assign_type: Some(TokenType::String),
            variable_name: Some(String::from("\"temp_1\"")),
            value: Some(String::from("\"hello\"")),
            line: Some(1),
        })
    );
    assert!(ins.convert_instruction.is_none());
}

#[test]
fn readme_convert_and_print_lines() {
    let (ins, n) = construct_instruction(
        String::from("3:Convert:string:\"variable_variable_1\":\"temp_1\""),
        4,
    )
    .unwrap();
    assert_eq!(n, 3);
    let c = ins.convert_instruction.unwrap();
    assert_eq!(c.convertion_type, Some(TokenType::String));
    assert_eq!(c.convert_to, Some(String::from("\"variable_variable_1\"")));
    assert_eq!(c.convert_from, Some(String::from("\"temp_1\"")));
    let (ins, _) = construct_instruction(String::from("4:Print:\"variable_variable_1\""), 5).unwrap();
    assert_eq!(ins.instruction_type, Some(InstructionType::Print));
    assert_eq!(
        ins.print_instruction.unwrap().variable_name,
        Some(String::from("\"variable_variable_1\""))
    );
}

#[test]
fn end_line() {
    let (ins, n) = construct_instruction(String::from("9:End:"), 10).unwrap();
    assert_eq!(n, 9);
    assert_eq!(ins.instruction_type, Some(InstructionType::End));
}

#[test]
fn operation_if_and_goto_lines() {
    let (ins, _) = construct_instruction(String::from("4:Operation:Plus:\"t3\":\"t1\":\"t2\""), 5).unwrap();
    let op = ins.operation_instruction.unwrap();
    assert_eq!(op.operation_type, Some(TokenType::Plus));
    assert_eq!(op.assign_to_variable, Some(String::from("\"t3\"")));
    assert_eq!(op.left_variable, Some(String::from("\"t1\"")));
    assert_eq!(op.right_variable, Some(String::from("\"t2\"")));
    let (ins, _) = construct_instruction(String::from("4:If:\"b\":7     "), 5).unwrap();
    let i = ins.if_instruction.unwrap();
    assert_eq!(i.variable_name, Some(String::from("\"b\"")));
    assert_eq!(i.condition_fail_goto_line, Some(7));
    let (ins, _) = construct_instruction(String::from("6:GoTo:9   "), 7).unwrap();
    assert_eq!(ins.goto_instruction.unwrap().goto_line, Some(9));
}

#[test]
fn bad_lines_are_refused() {
    assert_eq!(
        construct_instruction(String::from("x:End:"), 2).map(|r| r.1),
        Err(String::from(
            "Engine VM: Instruction Construction -> Line part is not an integer, instruction line: 1, line: 2."
        ))
    );
    assert_eq!(
        construct_instruction(String::from("3:Jump:"), 4).map(|r| r.1),
        Err(String::from(
            "Engine VM: Instruction Construction -> Unknown instruction `Jump`, instruction line: 3, line: 4."
        ))
    );
    assert_eq!(
        construct_instruction(String::from("nothing"), 4).map(|r| r.1),
        Err(String::from(
            "Engine VM: Instruction Construction -> Invalid instruction, instruction line: 4, line: 4."
        ))
    );
    assert_eq!(
        construct_instruction(String::from("6:GoTo:x"), 7).map(|r| r.1),
        Err(String::from(
            "Engine VM: Instruction Construction -> GoTo line part is not an integer, instruction line: 6, line: 7."
        ))
    );
}

use engine::vm::instructions_executers::execute_goto_instruction;
use engine::vm::literals::{assign_char_value, assign_string_value, unescape};
use engine::vm::machine::VmState;
use engine::vm::syntax_tree::GoToInstruction;

#[test]
fn string_values_lose_their_quotes_and_escapes() {
    assert_eq!(assign_string_value("\"hello\""), Some(String::from("hello")));
    assert_eq!(assign_string_value("\"a\\nb\\tc\""), Some(String::from("a\nb\tc")));
    assert_eq!(assign_string_value("\"q\\\"x\\\\y\""), Some(String::from("q\"x\\y")));
    assert_eq!(assign_string_value("\"\\q\""), Some(String::from("\\q")));
    assert_eq!(assign_string_value("\"\""), Some(String::new()));
    assert_eq!(assign_string_value("\""), None);
    assert_eq!(assign_string_value(""), None);
    assert_eq!(unescape("end\\"), String::from("end\\"));
}

#[test]
fn char_values() {
    assert_eq!(assign_char_value("'a'"), 'a');
    assert_eq!(assign_char_value("'\\n'"), '\n');
    assert_eq!(assign_char_value("'\\t'"), '\t');
    assert_eq!(assign_char_value("'''"), '\'');
    assert_eq!(assign_char_value("'\\\\'"), '\\');
    assert_eq!(assign_char_value("'é'"), 'é');
    assert_eq!(assign_char_value("''"), '\0');
}

#[test]
fn goto_jumps() {
    let r = execute_goto_instruction(GoToInstruction { goto_line: Some(7), line: Some(3) });
    assert_eq!(r, Ok((false, 7)));
}

#[test]
fn machine_skips_to_a_forward_target() {
    let mut state = VmState::new();
    assert_eq!(state.current_line, 1);
    state.next_line();
    assert!(state.take_line(1, 20));
    assert_eq!(state.land(1, (false, 3)), None);
    assert_eq!(state.current_go_to_line, Some(3));
    assert!(!state.take_line(2, 40));
    assert!(state.take_line(3, 60));
    assert_eq!(state.current_go_to_line, None);
    assert_eq!(state.land(3, (true, 0)), None);
}

#[test]
fn machine_seeks_back_to_a_seen_line() {
    let mut state = VmState::new();
    assert!(state.take_line(1, 24));
    assert!(state.take_line(2, 50));
    assert!(state.take_line(3, 80));
    assert_eq!(state.land(3, (false, 2)), Some(50));
    assert_eq!(state.current_go_to_line, Some(2));
    assert!(state.take_line(2, 50));
    assert_eq!(state.lines.get(&2), Some(&50));
}

#[test]
fn comparison_lines_decode_as_comparisons() {
    for (name, op) in [("Equal", TokenType::Equal), ("NotEqual", TokenType::NotEqual)] {
        let line = format!("8:Operation:{}:\"t\":\"a\":\"b\"", name);
        let (ins, n) = construct_instruction(line, 9).unwrap();
        assert_eq!(n, 8);
        let operation = ins.operation_instruction.unwrap();
        assert_eq!(operation.operation_type, Some(op));
        assert_eq!(operation.assign_to_variable, Some(String::from("\"t\"")));
        assert_eq!(operation.left_variable, Some(String::from("\"a\"")));
        assert_eq!(operation.right_variable, Some(String::from("\"b\"")));
        assert_eq!(operation.line, Some(8));
    }
}

#[test]
fn lines_decode_at_file_line_zero() {
    let (ins, n) = construct_instruction(String::from("1:End:"), 0).unwrap();
    assert_eq!(n, 1);
    assert_eq!(ins.instruction_type, Some(InstructionType::End));
    assert!(construct_instruction(String::from("9:End"), 0).is_err());
}
