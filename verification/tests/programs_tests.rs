use engine::constants::Mode;
use engine::lexer::Lexer;
use engine::parser::{parse, Parser};
use engine::programs::{analyze_program, byte_code_program, rust_program, tree_check};
use engine::source::read_characters;
use engine::syntax_tree::{StatementNode, StatementType, StatementsNode};

fn tree(source: &str, mode: Mode) -> StatementsNode {
    let lexer = Lexer::new(read_characters(source.as_bytes()).unwrap(), mode);
    let mut parser = Parser::new(lexer).unwrap();
    parse(&mut parser).unwrap()
}

/// A tree whose one statement is a definition without its parts.
fn tree_missing_a_part() -> StatementsNode {
    let mut statement = StatementNode::new();
    statement.statement_type = Some(StatementType::DefineBool);
    let mut tree = StatementsNode::new();
    tree.statements.push_back(statement);
    tree
}

#[test]
fn an_empty_tree_is_ready_with_size_zero() {
    assert_eq!(tree_check(&StatementsNode::new()), (true, Some(0)));
}

#[test]
fn the_size_of_definitions_and_prints() {
    // Two definitions of one node each (two apiece) and two prints (one apiece).
    let t = tree("string a = \"x\"\nprint(a)\nstring b = \"y\"\nprint(b)\n", Mode::Compiler);
    assert_eq!(tree_check(&t), (true, Some(6)));
}

#[test]
fn the_size_of_an_if_statement_with_an_else() {
    // The definition (2), the condition and its body (1 + 1 + 1), the else
    // and its body (1 + 1), the last print (1).
    let t = tree("bool b = True\nif b {\nprint(b)\n}\nelse {\nprint(b)\n}\nprint(b)\n", Mode::Compiler);
    assert_eq!(tree_check(&t), (true, Some(8)));
}

#[test]
fn an_expression_counts_its_nodes() {
    let t = tree("int x = 1 + 2\n", Mode::Compiler);
    assert_eq!(tree_check(&t), (true, Some(4)));
}

#[test]
fn a_statement_without_its_parts_is_not_ready() {
    assert_eq!(tree_check(&tree_missing_a_part()).0, false);
    assert_eq!(analyze_program(Mode::Compiler, tree_missing_a_part()), None);
    assert!(byte_code_program(tree_missing_a_part()).is_none());
    assert!(rust_program(tree_missing_a_part()).is_none());
}

#[test]
fn analysis_of_a_whole_program() {
    let t = tree("int a = 1\nprint(a)\n", Mode::Compiler);
    assert_eq!(analyze_program(Mode::Compiler, t), Some(Ok(())));
    let t = tree("bool b = 1\n", Mode::Compiler);
    assert_eq!(
        analyze_program(Mode::Compiler, t),
        Some(Err(String::from("Engine Compiler: Syntax Error -> Can't assign `IntNumber` to Boolean, line 1:6.")))
    );
}

#[test]
fn byte_code_of_a_whole_program() {
    let t = tree("int x = 7\nprint(x)\n", Mode::ByteCodeGenerator);
    let (generator, result) = byte_code_program(t).unwrap();
    assert_eq!(result, Ok(()));
    let expected: Vec<String> = vec![
        "0:EngineByteCode:v0.1.0",
        "1:Assign:int:\"temp_1\":7",
        "2:Assign:int:\"variable_x\":0",
        "3:Convert:int:\"variable_x\":\"temp_1\"",
        "4:Print:\"variable_x\"",
        "5:End:",
    ]
    .into_iter()
    .map(String::from)
    .collect();
    assert_eq!(generator.lines(), &expected);
}

#[test]
fn byte_code_of_an_unknown_variable_keeps_its_lines_and_fails() {
    let t = tree("print(y)\n", Mode::ByteCodeGenerator);
    let (generator, result) = byte_code_program(t).unwrap();
    assert_eq!(result, Err(String::from("Engine Compiler: Byte Code Generation Error -> Variable `y` not found.")));
    assert_eq!(generator.lines()[0], "0:EngineByteCode:v0.1.0");
}

#[test]
fn rust_code_of_a_whole_program() {
    let t = tree("int x = 7\n", Mode::Compiler);
    let (generator, result) = rust_program(t).unwrap();
    assert_eq!(result, Ok(()));
    assert_eq!(generator.lines()[0], "#![allow(arithmetic_overflow)]");
    assert_eq!(generator.lines().last().map(String::as_str), Some("}"));
}
