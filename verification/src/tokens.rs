use vstd::prelude::*;
use vstd::string::*;

verus! {

/// The kinds of tokens of the Engine language.
#[derive(Debug, PartialEq, Eq, Clone, Copy, Structural)]
pub enum TokenType {
    Eof,
    NewLine,
    Space,
    SingleLineComment,
    MultiLineComment,
    Bool,
    Int,
    Double,
    Char,
    String,
    Var,
    As,
    True,
    False,
    IntNumber,
    DoubleNumber,
    Character,
    StringSequence,
    Assign,
    Equal,
    GreaterThanOrEqual,
    GreaterThan,
    LessThanOrEqual,
    LessThan,
    NotEqual,
    Plus,
    PlusEqual,
    Minus,
    MinusEqual,
    Mul,
    MulEqual,
    Div,
    DivEqual,
    Mod,
    ModEqual,
    Or,
    And,
    OpenParenthes,
    CloseParenthes,
    OpenBracket,
    CloseBracket,
    Variable,
    Print,
    Input,
    If,
    Else,
    For,
    Comma,
    In,
    Continue,
    Break,
    BadToken,
}

/// A token: its kind, where it starts (line and column, from 1) and its text.
#[derive(Debug, PartialEq)]
pub struct Token {
    pub token_type: TokenType,
    pub start_line: u64,
    pub start_pos: u64,
    pub value: String,
}

/// A token with its text as a sequence.
pub ghost struct TokenView {
    pub token_type: TokenType,
    pub start_line: int,
    pub start_pos: int,
    pub value: Seq<char>,
}

impl View for Token {
    type V = TokenView;

    open spec fn view(&self) -> TokenView {
        TokenView {
            token_type: self.token_type,
            start_line: self.start_line as int,
            start_pos: self.start_pos as int,
            value: self.value@,
        }
    }
}

/// The views of a sequence of tokens.
pub open spec fn views(s: Seq<Token>) -> Seq<TokenView> {
    s.map_values(|t: Token| t@)
}

impl Clone for Token {
    fn clone(&self) -> (r: Self)
        ensures
            r == *self,
    {
        Token {
            token_type: self.token_type,
            start_line: self.start_line,
            start_pos: self.start_pos,
            value: self.value.clone(),
        }
    }
}

/// The kind of a word: a keyword's own kind, or `Variable` for any other word.
pub open spec fn word_type(word: Seq<char>) -> TokenType {
    if word == "bool"@ {
        TokenType::Bool
    } else if word == "int"@ {
        TokenType::Int
    } else if word == "double"@ {
        TokenType::Double
    } else if word == "char"@ {
        TokenType::Char
    } else if word == "string"@ {
        TokenType::String
    } else if word == "var"@ {
        TokenType::Var
    } else if word == "as"@ {
        TokenType::As
    } else if word == "True"@ {
        TokenType::True
    } else if word == "False"@ {
        TokenType::False
    } else if word == "input"@ {
        TokenType::Input
    } else if word == "print"@ {
        TokenType::Print
    } else if word == "if"@ {
        TokenType::If
    } else if word == "else"@ {
        TokenType::Else
    } else if word == "for"@ {
        TokenType::For
    } else if word == "in"@ {
        TokenType::In
    } else if word == "continue"@ {
        TokenType::Continue
    } else if word == "break"@ {
        TokenType::Break
    } else {
        TokenType::Variable
    }
}

/// Whether `s` holds exactly the text `lit`.
pub fn text_equals(s: &String, lit: &str) -> (b: bool)
    ensures
        b == (s@ == lit@),
{
    let l = String::from_str(lit);
    *s == l
}

/// The kind of the word `variable` (see `word_type`).
pub fn get_token_type(variable: &String) -> (t: TokenType)
    ensures
        t == word_type(variable@),
{
    if text_equals(variable, "bool") {
        TokenType::Bool
    } else if text_equals(variable, "int") {
        TokenType::Int
    } else if text_equals(variable, "double") {
        TokenType::Double
    } else if text_equals(variable, "char") {
        TokenType::Char
    } else if text_equals(variable, "string") {
        TokenType::String
    } else if text_equals(variable, "var") {
        TokenType::Var
    } else if text_equals(variable, "as") {
        TokenType::As
    } else if text_equals(variable, "True") {
        TokenType::True
    } else if text_equals(variable, "False") {
        TokenType::False
    } else if text_equals(variable, "input") {
        TokenType::Input
    } else if text_equals(variable, "print") {
        TokenType::Print
    } else if text_equals(variable, "if") {
        TokenType::If
    } else if text_equals(variable, "else") {
        TokenType::Else
    } else if text_equals(variable, "for") {
        TokenType::For
    } else if text_equals(variable, "in") {
        TokenType::In
    } else if text_equals(variable, "continue") {
        TokenType::Continue
    } else if text_equals(variable, "break") {
        TokenType::Break
    } else {
        TokenType::Variable
    }
}

} // verus!
