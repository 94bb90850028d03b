use engine::character::Character;
use engine::constants::Mode;
use engine::lexer::{next_token, tokenize, Lexer};
use engine::source::read_characters;
use engine::tokens::{get_token_type, TokenType};

fn lexer_of(source: &str) -> Lexer {
    Lexer::new(read_characters(source.as_bytes()).unwrap(), Mode::Compiler)
}

#[test]
fn definition_tokens_with_places() {
    let mut lexer = lexer_of("int x = 12\n");
    let (tokens, error) = tokenize(&mut lexer);
    assert_eq!(error, None);
    let found: Vec<(TokenType, u64, u64, String)> = tokens
        .into_iter()
        .map(|t| (t.token_type, t.start_line, t.start_pos, t.value))
        .collect();
    let expected = vec![
        (TokenType::Int, 1, 1, String::from("int")),
        (TokenType::Space, 1, 4, String::from(" ")),
        (TokenType::Variable, 1, 5, String::from("x")),
        (TokenType::Space, 1, 6, String::from(" ")),
        (TokenType::Assign, 1, 7, String::from("=")),
        (TokenType::Space, 1, 8, String::from(" ")),
        (TokenType::IntNumber, 1, 9, String::from("12")),
        (TokenType::NewLine, 1, 11, String::from("\n")),
        (TokenType::Eof, 2, 1, String::new()),
    ];
    assert_eq!(found, expected);
}

#[test]
fn double_and_comparison_tokens() {
    let mut lexer = lexer_of("3.25==x");
    let first = next_token(&mut lexer).unwrap();
    assert_eq!(first.token_type, TokenType::DoubleNumber);
    assert_eq!(first.value, "3.25");
    let second = next_token(&mut lexer).unwrap();
    assert_eq!(second.token_type, TokenType::Equal);
    assert_eq!(second.value, "==");
    let third = next_token(&mut lexer).unwrap();
    assert_eq!(third.token_type, TokenType::Variable);
    assert_eq!(next_token(&mut lexer).unwrap().token_type, TokenType::Eof);
}

#[test]
fn string_literal_token() {
    let mut lexer = lexer_of("\"hello\"");
    let t = next_token(&mut lexer).unwrap();
    assert_eq!(t.token_type, TokenType::StringSequence);
    assert_eq!(t.value, "hello");
    let mut lexer = lexer_of("\"a\"");
    assert_eq!(next_token(&mut lexer).unwrap().token_type, TokenType::Character);
}

#[test]
fn only_the_last_token_is_eof() {
    let mut lexer = lexer_of("bool b = true\nprint(b)\n");
    let (tokens, error) = tokenize(&mut lexer);
    assert_eq!(error, None);
    let last = tokens.len() - 1;
    assert_eq!(tokens[last].token_type, TokenType::Eof);
    assert!(tokens[..last].iter().all(|t| t.token_type != TokenType::Eof));
}

#[test]
fn too_long_variable_is_refused() {
    let name = "a".repeat(101);
    let mut lexer = lexer_of(&name);
    assert_eq!(
        next_token(&mut lexer),
        Err(String::from(
            "Engine Compiler: Token Error -> Variable length must not exceed 100 characters, line 1:1."
        ))
    );
}

#[test]
fn keywords_and_names() {
    assert_eq!(get_token_type(&String::from("int")), TokenType::Int);
    assert_eq!(get_token_type(&String::from("print")), TokenType::Print);
    assert_eq!(get_token_type(&String::from("True")), TokenType::True);
    assert_eq!(get_token_type(&String::from("true")), TokenType::Variable);
    assert_eq!(get_token_type(&String::from("if")), TokenType::If);
    assert_eq!(get_token_type(&String::from("counter")), TokenType::Variable);
}

#[test]
fn characters_of_source() {
    let characters = read_characters("a1 é\n".as_bytes()).unwrap();
    assert_eq!(characters.len(), 5);
    assert!(characters[0].is_alpha());
    assert!(characters[1].is_digit());
    assert!(characters[2].is_space());
    assert!(!characters[3].is_ascii());
    assert_eq!(characters[3].to_string(), "é");
    assert!(characters[4].is_newline());
    assert!(read_characters(&[0xff, 0x41]).is_none());
}

#[test]
fn character_from_code() {
    let c = Character::new([b'z', 0, 0, 0], Mode::Compiler);
    assert_eq!(c.to_string(), "z");
    assert!(c.is_alpha());
    assert!(Character::from_code([0xc3, 0x28, 0, 0]).is_none());
}

#[test]
fn unterminated_string_is_refused() {
    let mut lexer = lexer_of("x = \"abc");
    let (tokens, error) = tokenize(&mut lexer);
    assert_eq!(tokens.len(), 4);
    assert_eq!(error, Some(String::from("Engine Compiler: Syntax Error -> End of file reached, line 1:5.")));
}

#[test]
fn unterminated_comment_is_refused() {
    let mut lexer = lexer_of("/* open\nstill");
    assert_eq!(
        next_token(&mut lexer),
        Err(String::from("Engine Compiler: Syntax Error -> Unexcepeted end of file, line 1:1."))
    );
}

#[test]
fn non_ascii_outside_strings_is_refused() {
    let mut lexer = lexer_of("é");
    assert_eq!(
        next_token(&mut lexer),
        Err(String::from("Engine Compiler: Syntax Error -> Only support ascii characters, line 1:1."))
    );
}

#[test]
fn comments_and_escapes() {
    let mut lexer = lexer_of("/* a\nb */\"x\\ty\"");
    let comment = next_token(&mut lexer).unwrap();
    assert_eq!(comment.token_type, TokenType::MultiLineComment);
    assert_eq!(comment.value, "/* a\nb */");
    let s = next_token(&mut lexer).unwrap();
    assert_eq!(s.token_type, TokenType::StringSequence);
    assert_eq!(s.value, "x\ty");
    assert_eq!((s.start_line, s.start_pos), (2, 5));
}

#[test]
fn only_the_interpreter_reads_a_comma() {
    let kinds = |mode: Mode| {
        let mut lexer = Lexer::new(read_characters(",".as_bytes()).unwrap(), mode);
        let (tokens, error) = tokenize(&mut lexer);
        assert_eq!(error, None);
        tokens.into_iter().map(|t| t.token_type).collect::<Vec<TokenType>>()
    };
    assert_eq!(kinds(Mode::Interpreter), vec![TokenType::Comma, TokenType::Eof]);
    assert_eq!(kinds(Mode::Compiler), vec![TokenType::BadToken, TokenType::Eof]);
    assert_eq!(kinds(Mode::ByteCodeGenerator), vec![TokenType::BadToken, TokenType::Eof]);
}
