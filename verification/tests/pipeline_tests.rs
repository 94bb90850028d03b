use engine::vm::rules::{operation_step, OperationStep};
use engine::vm::tokens::TokenType as VmTokenType;
use engine::analyzer::{analyze, Analyzer};
use engine::programs::{byte_code_program, rust_program};
use engine::constants::Mode;
use engine::lexer::Lexer;
use engine::parser::{parse, Parser};
use engine::source::read_characters;
use engine::syntax_tree::StatementsNode;

const README_PROGRAM: &str = "string variable_1 = \"hello\"\nprint(variable_1)\n\nstring variable_2 = \", world!!!!\"\nprint(variable_2)\n";

const IF_ELSE_PROGRAM: &str = "bool b = True\nif b {\nprint(b)\n}\nelse {\nprint(b)\n}\nprint(b)\n";

fn parse_source(source: &str, mode: Mode) -> Result<StatementsNode, String> {
    let characters = read_characters(source.as_bytes()).expect("valid UTF-8");
    let lexer = Lexer::new(characters, mode);
    let mut parser = Parser::new(lexer)?;
    parse(&mut parser)
}

fn byte_code(source: &str) -> Result<Vec<String>, String> {
    let tree = parse_source(source, Mode::ByteCodeGenerator)?;
    let (generator, result) = byte_code_program(tree).expect("a parsed tree of a few statements");
    result?;
    Ok(generator.lines().clone())
}

fn rust_code(source: &str) -> Result<Vec<String>, String> {
    let tree = parse_source(source, Mode::Compiler)?;
    let (generator, result) = rust_program(tree).expect("a parsed tree of a few statements");
    result?;
    Ok(generator.lines().clone())
}

fn prelude() -> Vec<String> {
    vec![
        "#![allow(arithmetic_overflow)]",
        "use std::io;",
        "use std::panic;",
        "fn main(){",
        "use std::io::Write;",
        "panic::set_hook(Box::new(|panic_info| {",
        "if let Some(panic_message) = panic_info.payload().downcast_ref::<String>() {",
        "println!(\"{}\", panic_message);",
        "} else if let Some(panic_message) = panic_info.payload().downcast_ref::<&str>() {",
        "println!(\"{}\", panic_message);",
        "} else {",
        "println!(\"Engine Compiler -> Interperter Error {}\", panic_info);",
        "}",
        "}));",
    ]
    .into_iter()
    .map(String::from)
    .collect()
}

fn print_lines(name: &str) -> Vec<String> {
    vec![
        format!("print!(\"{{}}\", {});", name),
        String::from("if io::stdout().flush().is_err(){"),
        String::from("panic!(\"Engine Compiler: Compiler Error -> Error in printing to console\");"),
        String::from("}"),
    ]
}

fn padded(text: &str) -> String {
    let mut s = String::from(text);
    while s.len() < 80 {
        s.push(' ');
    }
    s
}

#[test]
fn readme_program_parses_into_four_statements() {
    let tree = parse_source(README_PROGRAM, Mode::Compiler).unwrap();
    assert_eq!(tree.statements.len(), 4);
}

#[test]
fn readme_program_passes_analysis() {
    let tree = parse_source(README_PROGRAM, Mode::Compiler).unwrap();
    let mut analyzer = Analyzer::new(Mode::Compiler);
    assert_eq!(analyze(&mut analyzer, tree), Ok(()));
    assert_eq!(analyzer.environments_stack.len(), 1);
    assert_eq!(analyzer.environments_stack[0].variables.len(), 2);
}

#[test]
fn readme_program_byte_code() {
    let lines = byte_code(README_PROGRAM).unwrap();
    let expected: Vec<String> = vec![
        "0:EngineByteCode:v0.1.0",
        "1:Assign:string:\"temp_1\":\"hello\"",
        "2:Assign:string:\"variable_variable_1\":\"\"",
        "3:Convert:string:\"variable_variable_1\":\"temp_1\"",
        "4:Print:\"variable_variable_1\"",
        "5:Assign:string:\"temp_2\":\", world!!!!\"",
        "6:Assign:string:\"variable_variable_2\":\"\"",
        "7:Convert:string:\"variable_variable_2\":\"temp_2\"",
        "8:Print:\"variable_variable_2\"",
        "9:End:",
    ]
    .into_iter()
    .map(String::from)
    .collect();
    assert_eq!(lines, expected);
}

#[test]
fn byte_code_lines_are_numbered_by_position() {
    for source in [README_PROGRAM, IF_ELSE_PROGRAM] {
        let lines = byte_code(source).unwrap();
        for (i, line) in lines.iter().enumerate() {
            assert!(line.starts_with(&format!("{}:", i)), "line {} is {:?}", i, line);
        }
    }
}

#[test]
fn if_else_byte_code_jumps() {
    let lines = byte_code(IF_ELSE_PROGRAM).unwrap();
    let expected: Vec<String> = vec![
        String::from("0:EngineByteCode:v0.1.0"),
        String::from("1:Assign:bool:\"temp_1\":True"),
        String::from("2:Assign:bool:\"variable_b\":False"),
        String::from("3:Convert:bool:\"variable_b\":\"temp_1\""),
        format!("4:If:\"variable_b\":{}", padded("7")),
        String::from("5:Print:\"variable_b\""),
        format!("6:GoTo:{}", padded("9")),
        String::from("7:Else:"),
        String::from("8:Print:\"variable_b\""),
        String::from("9:Print:\"variable_b\""),
        String::from("10:End:"),
    ];
    assert_eq!(lines, expected);
}

#[test]
fn readme_program_rust_code() {
    let lines = rust_code(README_PROGRAM).unwrap();
    let mut expected = prelude();
    expected.push(String::from("let mut temp_1: String = String::from(\"hello\");"));
    expected.push(String::from("let mut variable_variable_1: String = temp_1;"));
    expected.extend(print_lines("variable_variable_1"));
    expected.push(String::from("let mut temp_3: String = String::from(\", world!!!!\");"));
    expected.push(String::from("let mut variable_variable_2: String = temp_3;"));
    expected.extend(print_lines("variable_variable_2"));
    expected.push(String::from("}"));
    assert_eq!(lines, expected);
}

#[test]
fn if_else_rust_code() {
    let lines = rust_code(IF_ELSE_PROGRAM).unwrap();
    let mut expected = prelude();
    expected.push(String::from("let mut temp_1: bool = true;"));
    expected.push(String::from("let mut variable_b: bool = temp_1;"));
    expected.push(String::from("if variable_b{"));
    expected.extend(print_lines("variable_b"));
    expected.push(String::from("}"));
    expected.push(String::from("else {"));
    expected.extend(print_lines("variable_b"));
    expected.push(String::from("}"));
    expected.extend(print_lines("variable_b"));
    expected.push(String::from("}"));
    assert_eq!(lines, expected);
}

#[test]
fn arithmetic_rust_code() {
    let lines = rust_code("int x = 1 + 2\n").unwrap();
    let mut expected = prelude();
    expected.push(String::from("let mut temp_1: i64 = 1;"));
    expected.push(String::from("let mut temp_2: i64 = 2;"));
    expected.push(String::from("let mut temp_3: i64 = temp_1 as i64 + temp_2 as i64;"));
    expected.push(String::from("let mut variable_x: i64 = temp_3 as i64;"));
    expected.push(String::from("}"));
    assert_eq!(lines, expected);
}

#[test]
fn arithmetic_byte_code() {
    let lines = byte_code("int x = 1 + 2\n").unwrap();
    let expected: Vec<String> = vec![
        "0:EngineByteCode:v0.1.0",
        "1:Assign:int:\"temp_1\":1",
        "2:Assign:int:\"temp_2\":2",
        "3:Assign:int:\"temp_3\":0",
        "4:Operation:Plus:\"temp_3\":\"temp_1\":\"temp_2\"",
        "5:Assign:int:\"variable_x\":0",
        "6:Convert:int:\"variable_x\":\"temp_3\"",
        "7:End:",
    ]
    .into_iter()
    .map(String::from)
    .collect();
    assert_eq!(lines, expected);
}

#[test]
fn undefined_variable_stops_byte_code() {
    assert_eq!(
        byte_code("print(y)\n"),
        Err(String::from("Engine Compiler: Byte Code Generation Error -> Variable `y` not found."))
    );
}

#[test]
fn undefined_variable_stops_rust_code() {
    assert_eq!(
        rust_code("print(y)\n"),
        Err(String::from("Engine Compiler: Code Generation Error -> Variable `y` not found."))
    );
}

#[test]
fn string_to_int_is_refused_by_analysis() {
    let tree = parse_source("int x = \"ab\"\n", Mode::Compiler).unwrap();
    let mut analyzer = Analyzer::new(Mode::Compiler);
    assert_eq!(
        analyze(&mut analyzer, tree),
        Err(String::from("Engine Compiler: Syntax Error -> Can't assign `StringSequence` to Int, line 1:5."))
    );
}

#[test]
fn variables_of_an_if_block_stay_in_it() {
    let source = "bool b = True\nif b {\nint inner = 1\n}\nprint(inner)\n";
    let tree = parse_source(source, Mode::Compiler).unwrap();
    let mut analyzer = Analyzer::new(Mode::Compiler);
    assert!(analyze(&mut analyzer, tree).is_err());
}

#[test]
fn else_if_parts_are_generated_after_the_first_branch() {
    let source = "int a = 2\nif a == 1 {\nprint(a)\n}\nelse if a == 2 {\nprint(a)\n}\nelse {\nprint(a)\n}\nprint(a)\n";
    let lines = rust_code(source).unwrap();
    let body: Vec<&str> = lines.iter().skip(14).map(|s| s.as_str()).collect();
    assert_eq!(body[0], "let mut temp_1: i64 = 2;");
    assert_eq!(body[1], "let mut variable_a: i64 = temp_1 as i64;");
    assert_eq!(body[2], "let mut temp_3: i64 = 1;");
    assert_eq!(body[3], "let mut temp_4: bool = variable_a == temp_3;");
    let byte = byte_code(source).unwrap();
    for (i, line) in byte.iter().enumerate() {
        assert!(line.starts_with(&format!("{}:", i)));
    }
    assert_eq!(byte.last().unwrap(), &format!("{}:End:", byte.len() - 1));
}

#[test]
fn input_rust_code() {
    let lines = rust_code("int x = input() as int\n").unwrap();
    let body: Vec<String> = lines.into_iter().skip(14).collect();
    let expected: Vec<String> = vec![
        "let mut temp_1 = String::new();",
        "if io::stdin().read_line(&mut temp_1).is_err(){",
        "panic!(\"Engine Compiler: Compiler Error -> Failed to read input, line: 1:20\")",
        "}",
        "let mut temp_1 = String::from(temp_1.trim_end());",
        "let mut temp_2 = temp_1.parse::<i64>();",
        "if temp_2.is_err(){",
        "panic!(\"Engine Compiler: Convert Error -> can't convert from `String` to `Int`, line: 1:20\");",
        "}",
        "let mut temp_2 = temp_2.unwrap();",
        "let mut variable_x: i64 = temp_2 as i64;",
        "}",
    ]
    .into_iter()
    .map(String::from)
    .collect();
    assert_eq!(body, expected);
}

#[test]
fn literal_escapes_in_rust_code() {
    let lines = rust_code("string s = \"a\tb\"\n").unwrap();
    assert_eq!(lines[14], "let mut temp_1: String = String::from(\"a\\tb\");");
}

#[test]
fn byte_code_names_follow_the_scope_that_holds_the_variable() {
    let source = "bool b = True\nif b {\nint c = 1\nprint(c)\nb = False\n}\nprint(b)\n";
    let lines = byte_code(source).unwrap();
    assert!(lines.iter().any(|l| l.ends_with(":Print:\"stack2_variable_c\"")), "{:?}", lines);
    assert!(lines.iter().any(|l| l.contains(":Convert:bool:\"variable_b\":\"temp_")), "{:?}", lines);
    assert!(lines.iter().any(|l| l.ends_with(":Print:\"variable_b\"")), "{:?}", lines);
}

#[test]
fn boolean_operands_give_a_boolean_in_rust_code() {
    let lines = rust_code("bool b = True + False\n").unwrap();
    assert_eq!(lines[16], "let mut temp_3: bool = temp_1 + temp_2;");
}

#[test]
fn generated_byte_code_decodes_line_by_line() {
    use_decoder_on(README_PROGRAM);
    use_decoder_on(IF_ELSE_PROGRAM);
    use_decoder_on("int a = 3\ndouble d = a / 2\nstring s = \"x:y\"\nchar c = ':'\nif a > 1 {\nprint(s)\n}\nelse if a < 1 {\nprint(c)\n}\nprint(d)\n");
}

fn use_decoder_on(source: &str) {
    use_lines(&byte_code(source).unwrap());
}

fn use_lines(lines: &[String]) {
    for (i, line) in lines.iter().enumerate().skip(1) {
        let (_, n) = engine::vm::instructions_construct::construct_instruction(line.clone(), i as u128 + 1)
            .unwrap_or_else(|e| panic!("line {:?}: {}", line, e));
        assert_eq!(n, i as u128);
    }
}

#[test]
fn unexpected_token_is_refused() {
    assert_eq!(
        parse_source(")\n", Mode::Compiler).map(|t| t.statements.len()),
        Err(String::from("Engine Compiler: Syntax Error -> Unexpected token CloseParenthes, line 1:1."))
    );
}

#[test]
fn missing_value_is_refused() {
    assert!(parse_source("int x =\n", Mode::Compiler).is_err());
}

#[test]
fn string_literals_read_back_through_the_machine() {
    use_literal_round_trip("string s = \"say \\\"hi\\\"\\n\\\\ done\"\nprint(s)\n");
    use_literal_round_trip("string s = \"tab\\there\"\nprint(s)\n");
}

fn use_literal_round_trip(source: &str) {
    let characters = read_characters(source.as_bytes()).expect("valid UTF-8");
    let mut lexer = Lexer::new(characters, Mode::ByteCodeGenerator);
    let (tokens, error) = engine::lexer::tokenize(&mut lexer);
    assert!(error.is_none());
    let literal = tokens
        .iter()
        .find(|t| t.token_type == engine::tokens::TokenType::StringSequence)
        .expect("a string literal")
        .value
        .clone();
    let lines = byte_code(source).unwrap();
    let (instruction, _) =
        engine::vm::instructions_construct::construct_instruction(lines[1].clone(), 2).unwrap();
    let assign = instruction.assign_instruction.unwrap();
    let value = assign.value.unwrap();
    let stored = engine::vm::rules::assign_value(assign.assign_type.unwrap(), &value, &format!("{:?}", value), 1, 2);
    assert_eq!(stored, Ok(engine::vm::rules::Computed::String(literal)));
}

#[test]
fn char_literals_read_back_through_the_machine() {
    for (source, expected) in [("char c = 'q'\nprint(c)\n", 'q'), ("char c = '\\t'\nprint(c)\n", '\t')] {
        let lines = byte_code(source).unwrap();
        let (instruction, _) =
            engine::vm::instructions_construct::construct_instruction(lines[1].clone(), 2).unwrap();
        let assign = instruction.assign_instruction.unwrap();
        let value = assign.value.unwrap();
        let stored =
            engine::vm::rules::assign_value(assign.assign_type.unwrap(), &value, &format!("{:?}", value), 1, 2);
        assert_eq!(stored, Ok(engine::vm::rules::Computed::Character(expected)));
    }
}

#[test]
fn generated_comparisons_and_remainders_run_on_the_machine() {
    use_operation_lines("int a = 1\nint b = 2\nbool c = a == b\nprint(c)\n", "Equal");
    use_operation_lines("int a = 1\nint b = 2\nbool c = a != b\nprint(c)\n", "NotEqual");
    use_operation_lines("int a = 1\nint b = 2\nbool c = a <= b\nprint(c)\n", "LessThanOrEqual");
    use_operation_lines("double x = 5.5 % 2.0\nprint(x)\n", "Mod");
}

fn use_operation_lines(source: &str, name: &str) {
    let lines = byte_code(source).unwrap();
    let marker = format!(":Operation:{}:", name);
    let line = lines.iter().find(|l| l.contains(&marker)).expect("an operation line").clone();
    let (instruction, n) = engine::vm::instructions_construct::construct_instruction(line, 5).unwrap();
    let operation = instruction.operation_instruction.unwrap();
    let op = operation.operation_type.unwrap();
    assert_ne!(op, VmTokenType::BadToken);
    let step = if name == "Mod" {
        operation_step(op, VmTokenType::Double, VmTokenType::Double, VmTokenType::Double, n, 5)
    } else {
        operation_step(op, VmTokenType::Bool, VmTokenType::Int, VmTokenType::Int, n, 5)
    };
    let expected = if name == "Mod" { OperationStep::DoubleArithmetic } else { OperationStep::Compare };
    assert_eq!(step, Ok(expected));
}
