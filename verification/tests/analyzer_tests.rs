use engine::analyzer::{
    analyze, get_variable, insert_variable_into_current_environmment, is_variable_exists, Analyzer,
};
use engine::constants::Mode;
use engine::environments::{Environment, EnvironmentScope, Variable};
use engine::lexer::Lexer;
use engine::parser::{parse, Parser};
use engine::source::read_characters;
use engine::syntax_tree::StatementsNode;
use engine::tokens::TokenType;

fn tree(source: &str) -> StatementsNode {
    let lexer = Lexer::new(read_characters(source.as_bytes()).unwrap(), Mode::Compiler);
    let mut parser = Parser::new(lexer).unwrap();
    parse(&mut parser).unwrap()
}

fn variable(name: &str, t: TokenType) -> Variable {
    let mut v = Variable::new();
    v.name = Some(String::from(name));
    v.variable_type = Some(t);
    v
}

#[test]
fn stored_variable_is_read_back() {
    let mut analyzer = Analyzer::new(Mode::Interpreter);
    assert!(!is_variable_exists(&analyzer, &String::from("x")));
    insert_variable_into_current_environmment(&mut analyzer, variable("x", TokenType::Int));
    assert!(is_variable_exists(&analyzer, &String::from("x")));
    let read = get_variable(&analyzer, &String::from("x")).unwrap();
    assert_eq!(read.variable_type, Some(TokenType::Int));
    insert_variable_into_current_environmment(&mut analyzer, variable("x", TokenType::String));
    let read = get_variable(&analyzer, &String::from("x")).unwrap();
    assert_eq!(read.variable_type, Some(TokenType::String));
    assert_eq!(analyzer.environments_stack[0].variables.len(), 1);
}

#[test]
fn missing_variable_message() {
    let analyzer = Analyzer::new(Mode::Interpreter);
    assert_eq!(
        get_variable(&analyzer, &String::from("ghost")).map(|v| v.name),
        Err(String::from("Engine Interpreter: Analyzer Error -> Variable `ghost` not found."))
    );
}

#[test]
fn new_analyzer_has_one_main_scope() {
    let analyzer = Analyzer::new(Mode::Compiler);
    assert_eq!(analyzer.environments_stack.len(), 1);
    assert_eq!(analyzer.environments_stack[0].scope, EnvironmentScope::Main);
    assert!(analyzer.environments_stack[0].variables.is_empty());
}

#[test]
fn well_typed_program_passes() {
    let source = "int a = 1\ndouble d = a / 2\nstring s = \"xy\" + 'y'\nvar v = a * 3\nv += 1\nbool ok = a < 2\nif ok {\nprint(s)\n}\nelse if a == 1 {\nprint(d)\n}\nprint(v)\n";
    let mut analyzer = Analyzer::new(Mode::Compiler);
    assert_eq!(analyze(&mut analyzer, tree(source)), Ok(()));
    assert_eq!(analyzer.environments_stack.len(), 1);
}

#[test]
fn bool_from_int_is_refused() {
    let mut analyzer = Analyzer::new(Mode::Compiler);
    assert_eq!(
        analyze(&mut analyzer, tree("bool b = 1\n")),
        Err(String::from("Engine Compiler: Syntax Error -> Can't assign `IntNumber` to Boolean, line 1:6."))
    );
}

#[test]
fn if_condition_must_be_boolean() {
    let mut analyzer = Analyzer::new(Mode::Compiler);
    assert_eq!(
        analyze(&mut analyzer, tree("int a = 1\nif a {\nprint(a)\n}\nprint(a)\n")),
        Err(String::from("Engine Compiler: Analyze Error -> if condition must be `Bool`, line 2:1."))
    );
}

#[test]
fn mode_names() {
    assert_eq!(Mode::Compiler.to_string(), "Engine Compiler");
    assert_eq!(Mode::ByteCodeGenerator.to_string(), "Engine ByteCodeGenerator");
    assert_eq!(Mode::Interpreter.to_string(), "Engine Interpreter");
    assert_eq!(Mode::VirtualMachine.to_string(), "Engine VM");
}

#[test]
fn outer_scope_is_read_first() {
    let mut analyzer = Analyzer::new(Mode::Compiler);
    insert_variable_into_current_environmment(&mut analyzer, variable("x", TokenType::Int));
    analyzer.environments_stack.push_back(Environment::new(EnvironmentScope::If));
    insert_variable_into_current_environmment(&mut analyzer, variable("x", TokenType::String));
    insert_variable_into_current_environmment(&mut analyzer, variable("y", TokenType::Bool));
    assert_eq!(get_variable(&analyzer, &String::from("x")).unwrap().variable_type, Some(TokenType::Int));
    assert_eq!(get_variable(&analyzer, &String::from("y")).unwrap().variable_type, Some(TokenType::Bool));
    assert_eq!(analyzer.environments_stack[1].variables.len(), 2);
}
