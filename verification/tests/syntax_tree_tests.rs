use std::collections::VecDeque;

use engine::syntax_tree::{construct_expression_node, OperatorType};
use engine::tokens::{Token, TokenType};

fn token(token_type: TokenType, value: &str) -> Token {
    Token { token_type, start_line: 1, start_pos: 1, value: String::from(value) }
}

#[test]
fn an_expression_leaves_the_tokens_after_it() {
    let mut tokens: VecDeque<Token> = VecDeque::from(vec![
        token(TokenType::IntNumber, "1"),
        token(TokenType::Plus, "+"),
        token(TokenType::IntNumber, "2"),
        token(TokenType::CloseParenthes, ")"),
        token(TokenType::Variable, "x"),
    ]);
    let node = construct_expression_node(&mut tokens);
    let left: Vec<(TokenType, String)> = tokens.iter().map(|t| (t.token_type, t.value.clone())).collect();
    assert_eq!(left, vec![(TokenType::CloseParenthes, String::from(")")), (TokenType::Variable, String::from("x"))]);
    assert_eq!(node.operator, Some(OperatorType::Plus));
    assert_eq!(node.value.as_ref().unwrap().token_type, TokenType::Plus);
    let l = node.left.as_ref().unwrap();
    let r = node.right.as_ref().unwrap();
    assert!(l.operator.is_none() && l.left.is_none() && l.right.is_none());
    assert_eq!(l.value.as_ref().unwrap().value, "1");
    assert_eq!(r.value.as_ref().unwrap().value, "2");
}

#[test]
fn an_input_node_carries_its_type() {
    let mut tokens: VecDeque<Token> = VecDeque::from(vec![
        token(TokenType::Input, "input"),
        token(TokenType::Int, "int"),
        token(TokenType::Mul, "*"),
        token(TokenType::IntNumber, "3"),
    ]);
    let node = construct_expression_node(&mut tokens);
    assert!(tokens.is_empty());
    assert_eq!(node.operator, Some(OperatorType::Mul));
    let input = node.left.as_ref().unwrap();
    assert_eq!(input.operator, Some(OperatorType::Convert));
    assert!(input.left.is_none() && input.right.is_none());
    assert_eq!(input.value.as_ref().unwrap().token_type, TokenType::Int);
}
