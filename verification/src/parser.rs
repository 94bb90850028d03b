use std::collections::VecDeque;

use vstd::prelude::*;
use vstd::string::*;

use crate::constants::{mode_text, Mode};
use crate::lexer::{lex_all, tokenize, Lexer};
use crate::syntax_tree::{
    block_ready, definition_ready, else_if_ready, has_values, if_ready, lemma_block_ready,
    lemma_else_ifs_ready, statement_ready, construct_expression_node, expression_ok, expression_tokens, is_leaf_type,
    lemma_parse_whole_expression, operand_ok, operand_tokens, operator_level, parse_expression,
    DefineBoolNode, DefineCharNode, DefineDoubleNode, DefineElseNode, DefineIfElseNode,
    DefineIfNode, DefineIfStatementNode, DefineIntNode, DefinePrintNode, DefineStringNode,
    DefineVarNode, DefineVariableNode, ExpressionShape, OperandShape, OperationNode,
    OperationNodeView, StatementNode, StatementType, StatementsNode,
};
use crate::text::{decimal_text, push_decimal};
use crate::tokens::{views, Token, TokenType, TokenView};

verus! {

/* The token stream */

/// What the parser reads: the tokens of the source in order, and the message
/// of the lexing error that ended them, if one did.
pub ghost struct Stream {
    pub toks: Seq<TokenView>,
    pub err: Option<Seq<char>>,
    /// The part of the tool chain that reports the errors.
    pub mode: Mode,
}

/// Only the last token can be the end of file, and a stream that no error
/// cut short ends with it.
pub open spec fn stream_wf(s: Stream) -> bool {
    &&& forall|k: int| 0 <= k < s.toks.len() - 1 ==> (#[trigger] s.toks[k]).token_type != TokenType::Eof
    &&& s.err is None ==> s.toks.len() > 0 && s.toks.last().token_type == TokenType::Eof
}

/* Messages */

/// The name of a token kind, as `{:?}` prints it.
pub open spec fn kind_name(t: TokenType) -> Seq<char> {
    match t {
        TokenType::Eof => "Eof"@,
        TokenType::NewLine => "NewLine"@,
        TokenType::Space => "Space"@,
        TokenType::SingleLineComment => "SingleLineComment"@,
        TokenType::MultiLineComment => "MultiLineComment"@,
        TokenType::Bool => "Bool"@,
        TokenType::Int => "Int"@,
        TokenType::Double => "Double"@,
        TokenType::Char => "Char"@,
        TokenType::String => "String"@,
        TokenType::Var => "Var"@,
        TokenType::As => "As"@,
        TokenType::True => "True"@,
        TokenType::False => "False"@,
        TokenType::IntNumber => "IntNumber"@,
        TokenType::DoubleNumber => "DoubleNumber"@,
        TokenType::Character => "Character"@,
        TokenType::StringSequence => "StringSequence"@,
        TokenType::Assign => "Assign"@,
        TokenType::Equal => "Equal"@,
        TokenType::GreaterThanOrEqual => "GreaterThanOrEqual"@,
        TokenType::GreaterThan => "GreaterThan"@,
        TokenType::LessThanOrEqual => "LessThanOrEqual"@,
        TokenType::LessThan => "LessThan"@,
        TokenType::NotEqual => "NotEqual"@,
        TokenType::Plus => "Plus"@,
        TokenType::PlusEqual => "PlusEqual"@,
        TokenType::Minus => "Minus"@,
        TokenType::MinusEqual => "MinusEqual"@,
        TokenType::Mul => "Mul"@,
        TokenType::MulEqual => "MulEqual"@,
        TokenType::Div => "Div"@,
        TokenType::DivEqual => "DivEqual"@,
        TokenType::Mod => "Mod"@,
        TokenType::ModEqual => "ModEqual"@,
        TokenType::Or => "Or"@,
        TokenType::And => "And"@,
        TokenType::OpenParenthes => "OpenParenthes"@,
        TokenType::CloseParenthes => "CloseParenthes"@,
        TokenType::OpenBracket => "OpenBracket"@,
        TokenType::CloseBracket => "CloseBracket"@,
        TokenType::Variable => "Variable"@,
        TokenType::Print => "Print"@,
        TokenType::Input => "Input"@,
        TokenType::If => "If"@,
        TokenType::Else => "Else"@,
        TokenType::For => "For"@,
        TokenType::Comma => "Comma"@,
        TokenType::In => "In"@,
        TokenType::Continue => "Continue"@,
        TokenType::Break => "Break"@,
        TokenType::BadToken => "BadToken"@,
    }
}

/// The names of token kinds, separated by commas.
pub open spec fn kind_names(ts: Seq<TokenType>) -> Seq<char>
    decreases ts.len(),
{
    if ts.len() == 0 {
        Seq::empty()
    } else if ts.len() == 1 {
        kind_name(ts[0])
    } else {
        kind_names(ts.drop_last()) + ", "@ + kind_name(ts.last())
    }
}

/// A list of token kinds, as `{:?}` prints it.
pub open spec fn list_text(ts: Seq<TokenType>) -> Seq<char> {
    "["@ + kind_names(ts) + "]"@
}

/// A syntax error reported at token `t`.
pub open spec fn syntax_error(mode: Mode, message: Seq<char>, t: TokenView) -> Seq<char> {
    mode_text(mode) + ": Syntax Error -> "@ + message + ", line "@ + decimal_text(t.start_line as nat)
        + ":"@ + decimal_text(t.start_pos as nat) + "."@
}

/// The error of a token that is none of the kinds `ts`.
pub open spec fn expected_error(mode: Mode, ts: Seq<TokenType>, t: TokenView) -> Seq<char> {
    syntax_error(mode, "Exepected "@ + list_text(ts) + " found "@ + kind_name(t.token_type), t)
}

/// The error of reaching the end of the file where more was due.
pub open spec fn end_of_file_error(mode: Mode, t: TokenView) -> Seq<char> {
    syntax_error(mode, "Unexpected end of file"@, t)
}

/// The error of a token that starts no statement.
pub open spec fn unexpected_error(mode: Mode, t: TokenView) -> Seq<char> {
    syntax_error(mode, "Unexpected token "@ + kind_name(t.token_type), t)
}

/* Steps over the stream */

/// The position after the token at `p`: the next one, the lexing error that
/// ended the stream, or `p` itself at the end of the file.
pub open spec fn pmove(s: Stream, p: int) -> Result<int, Seq<char>> {
    if p + 1 < s.toks.len() {
        Ok(p + 1)
    } else {
        match s.err {
            Some(m) => Err(m),
            None => Ok(p),
        }
    }
}

/// Steps over every token of the kinds `ts`; reaching the end of the file is
/// an error.
pub open spec fn pbypass(s: Stream, p: int, ts: Seq<TokenType>) -> Result<int, Seq<char>>
    decreases s.toks.len() - p,
{
    if !(0 <= p < s.toks.len()) {
        Err(Seq::empty())
    } else if s.toks[p].token_type == TokenType::Eof {
        Err(end_of_file_error(s.mode, s.toks[p]))
    } else if ts.contains(s.toks[p].token_type) {
        match pmove(s, p) {
            Err(m) => Err(m),
            Ok(q) => if p < q {
                pbypass(s, q, ts)
            } else {
                Ok(q)
            },
        }
    } else {
        Ok(p)
    }
}

/// The error, if the token at `p` is none of the kinds `ts`.
pub open spec fn pmatch(s: Stream, p: int, ts: Seq<TokenType>) -> Option<Seq<char>> {
    if ts.contains(s.toks[p].token_type) {
        None
    } else {
        Some(expected_error(s.mode, ts, s.toks[p]))
    }
}

/// Steps over the kinds `skip`, then takes a token of one of the kinds
/// `want`: the token and the position after it.
pub open spec fn ptake(s: Stream, p: int, skip: Seq<TokenType>, want: Seq<TokenType>) -> Result<
    (TokenView, int),
    Seq<char>,
> {
    match pbypass(s, p, skip) {
        Err(m) => Err(m),
        Ok(q) => match pmatch(s, q, want) {
            Some(m) => Err(m),
            None => match pmove(s, q) {
                Err(m) => Err(m),
                Ok(r) => Ok((s.toks[q], r)),
            },
        },
    }
}

/// Takes a token of one of the kinds `want` where the parser stands.
pub open spec fn pexpect(s: Stream, p: int, want: Seq<TokenType>) -> Result<(TokenView, int), Seq<char>> {
    match pmatch(s, p, want) {
        Some(m) => Err(m),
        None => match pmove(s, p) {
            Err(m) => Err(m),
            Ok(r) => Ok((s.toks[p], r)),
        },
    }
}

/// Spaces and block comments.
pub open spec fn inline_gaps() -> Seq<TokenType> {
    seq![TokenType::Space, TokenType::MultiLineComment]
}

/// Spaces and comments of both kinds.
pub open spec fn comment_gaps() -> Seq<TokenType> {
    seq![TokenType::Space, TokenType::SingleLineComment, TokenType::MultiLineComment]
}

/// Spaces, comments and line ends.
pub open spec fn all_gaps() -> Seq<TokenType> {
    seq![TokenType::Space, TokenType::SingleLineComment, TokenType::MultiLineComment, TokenType::NewLine]
}

/// Stepping onward from a token other than the end of file moves one token
/// ahead, unless the stream ends there in an error.
proof fn lemma_move_ahead(s: Stream, p: int)
    requires
        stream_wf(s),
        0 <= p < s.toks.len(),
        s.toks[p].token_type != TokenType::Eof,
    ensures
        pmove(s, p) matches Ok(q) ==> q == p + 1,
{
    if p + 1 >= s.toks.len() && s.err is None {
        assert(s.toks.last() == s.toks[p]);
    }
}

/// Stepping over tokens ends on a token that is neither the end of file
/// nor one of the kinds stepped over.
proof fn lemma_bypass_lands(s: Stream, p: int, ts: Seq<TokenType>)
    requires
        stream_wf(s),
    ensures
        pbypass(s, p, ts) matches Ok(q) ==> p <= q < s.toks.len() && s.toks[q].token_type
            != TokenType::Eof && !ts.contains(s.toks[q].token_type),
    decreases s.toks.len() - p,
{
    if 0 <= p < s.toks.len() && s.toks[p].token_type != TokenType::Eof && ts.contains(
        s.toks[p].token_type,
    ) {
        lemma_move_ahead(s, p);
        if let Ok(q) = pmove(s, p) {
            lemma_bypass_lands(s, q, ts);
        }
    }
}


/* Expressions */

/// Kinds of tokens that start an operand.
pub open spec fn operand_starts() -> Seq<TokenType> {
    seq![
        TokenType::True,
        TokenType::False,
        TokenType::IntNumber,
        TokenType::DoubleNumber,
        TokenType::Character,
        TokenType::StringSequence,
        TokenType::Variable,
        TokenType::Input,
        TokenType::OpenParenthes,
    ]
}

/// Kinds of tokens of the binary operators.
pub open spec fn binary_operators() -> Seq<TokenType> {
    seq![
        TokenType::Equal,
        TokenType::GreaterThanOrEqual,
        TokenType::GreaterThan,
        TokenType::LessThanOrEqual,
        TokenType::LessThan,
        TokenType::NotEqual,
        TokenType::Plus,
        TokenType::Minus,
        TokenType::Mul,
        TokenType::Div,
        TokenType::Mod,
        TokenType::Or,
        TokenType::And,
    ]
}

/// Kinds of tokens that name the type an input is converted to.
pub open spec fn convert_types() -> Seq<TokenType> {
    seq![TokenType::Bool, TokenType::Int, TokenType::Double, TokenType::Char, TokenType::String]
}

/// What an expression may step over: line ends and line comments only
/// where it may span lines.
pub open spec fn gaps(allow_new_line: bool) -> Seq<TokenType> {
    if allow_new_line {
        all_gaps()
    } else {
        inline_gaps()
    }
}

/// The type an input is converted to when it names none: `string`, placed
/// where the input is.
pub open spec fn default_convert(t: TokenView) -> TokenView {
    TokenView {
        token_type: TokenType::String,
        start_line: t.start_line,
        start_pos: t.start_pos,
        value: "string"@,
    }
}

/// Collects an expression: its shape and the position after it, with the
/// gaps after it stepped over.
pub open spec fn pexpr(s: Stream, p: int, allow_new_line: bool) -> Result<
    (ExpressionShape, int),
    Seq<char>,
>
    decreases s.toks.len() - p, 1int,
{
    match pbypass(s, p, gaps(allow_new_line)) {
        Err(m) => Err(m),
        Ok(p1) => match pmatch(s, p1, operand_starts()) {
            Some(m) => Err(m),
            None => if p1 < p || p1 >= s.toks.len() {
                Err(Seq::empty())
            } else {
                match poperand(s, p1, allow_new_line) {
                    Err(m) => Err(m),
                    Ok((o, q)) => match pbypass(s, q, gaps(allow_new_line)) {
                        Err(m) => Err(m),
                        Ok(q1) => if binary_operators().contains(s.toks[q1].token_type) {
                            match pmove(s, q1) {
                                Err(m) => Err(m),
                                Ok(q2) => if q2 <= p || q2 > s.toks.len() {
                                    Err(Seq::empty())
                                } else {
                                    match pexpr(s, q2, allow_new_line) {
                                        Err(m) => Err(m),
                                        Ok((r, q3)) => Ok(
                                            (ExpressionShape::Binary(o, s.toks[q1], Box::new(r)), q3),
                                        ),
                                    }
                                },
                            }
                        } else {
                            Ok((ExpressionShape::Operand(o), q1))
                        },
                    },
                }
            },
        },
    }
}

/// Collects the operand that starts at `p`.
pub open spec fn poperand(s: Stream, p: int, allow_new_line: bool) -> Result<
    (OperandShape, int),
    Seq<char>,
>
    decreases s.toks.len() - p, 0int,
{
    let t = s.toks[p];
    if t.token_type == TokenType::OpenParenthes {
        match pmove(s, p) {
            Err(m) => Err(m),
            Ok(p2) => if p2 <= p || p2 > s.toks.len() {
                Err(Seq::empty())
            } else {
                match pexpr(s, p2, true) {
                    Err(m) => Err(m),
                    Ok((inner, p3)) => match pexpect(s, p3, seq![TokenType::CloseParenthes]) {
                        Err(m) => Err(m),
                        Ok((close, p4)) => match pbypass(s, p4, gaps(allow_new_line)) {
                            Err(m) => Err(m),
                            Ok(p5) => Ok((OperandShape::Paren(t, Box::new(inner), close), p5)),
                        },
                    },
                }
            },
        }
    } else if t.token_type == TokenType::Input {
        pinput(s, p)
    } else {
        match pmove(s, p) {
            Err(m) => Err(m),
            Ok(p2) => Ok((OperandShape::Leaf(t), p2)),
        }
    }
}

/// An `input()` at `p`, with the type it is converted to: the one named
/// after `as`, or `string`.
pub open spec fn pinput(s: Stream, p: int) -> Result<(OperandShape, int), Seq<char>> {
    let t = s.toks[p];
        match pmove(s, p) {
            Err(m) => Err(m),
            Ok(p2) => match ptake(s, p2, inline_gaps(), seq![TokenType::OpenParenthes]) {
                Err(m) => Err(m),
                Ok((_, p4)) => match ptake(s, p4, all_gaps(), seq![TokenType::CloseParenthes]) {
                    Err(m) => Err(m),
                    Ok((_, p6)) => match pbypass(s, p6, inline_gaps()) {
                        Err(m) => Err(m),
                        Ok(p7) => if s.toks[p7].token_type == TokenType::As {
                            match pmove(s, p7) {
                                Err(m) => Err(m),
                                Ok(p8) => match ptake(s, p8, inline_gaps(), convert_types()) {
                                    Err(m) => Err(m),
                                    Ok((ty, p10)) => Ok((OperandShape::Input(t, ty), p10)),
                                },
                            }
                        } else {
                            Ok((OperandShape::Input(t, default_convert(t)), p7))
                        },
                    },
                },
            },
        }
}

proof fn lemma_operand_start(t: TokenType)
    requires
        operand_starts().contains(t),
    ensures
        t != TokenType::Eof,
        t != TokenType::OpenParenthes && t != TokenType::Input ==> is_leaf_type(t),
{
    let i = choose|i: int| 0 <= i < operand_starts().len() && operand_starts()[i] == t;
    assert(0 <= i < 9);
    if i == 0 {
    } else if i == 1 {
    } else if i == 2 {
    } else if i == 3 {
    } else if i == 4 {
    } else if i == 5 {
    } else if i == 6 {
    } else if i == 7 {
    } else {
    }
}

proof fn lemma_binary_operator(t: TokenType)
    requires
        binary_operators().contains(t),
    ensures
        operator_level(t) >= 0,
        t != TokenType::Eof,
{
    let i = choose|i: int| 0 <= i < binary_operators().len() && binary_operators()[i] == t;
    assert(0 <= i < 13);
    if i < 4 {
    } else if i < 8 {
    } else if i < 11 {
    } else {
    }
}

/// What the expression collector gathers has the right kind of token in
/// every place.
pub proof fn lemma_pexpr_ok(s: Stream, p: int, allow_new_line: bool)
    ensures
        pexpr(s, p, allow_new_line) matches Ok((e, _)) ==> expression_ok(e),
    decreases s.toks.len() - p, 1int,
{
    if let Ok(p1) = pbypass(s, p, gaps(allow_new_line)) {
        if pmatch(s, p1, operand_starts()) is None && p <= p1 < s.toks.len() {
            lemma_poperand_ok(s, p1, allow_new_line);
            if let Ok((o, q)) = poperand(s, p1, allow_new_line) {
                if let Ok(q1) = pbypass(s, q, gaps(allow_new_line)) {
                    if binary_operators().contains(s.toks[q1].token_type) {
                        lemma_binary_operator(s.toks[q1].token_type);
                        if let Ok(q2) = pmove(s, q1) {
                            if p < q2 <= s.toks.len() {
                                lemma_pexpr_ok(s, q2, allow_new_line);
                            }
                        }
                    }
                }
            }
        }
    }
}

proof fn lemma_poperand_ok(s: Stream, p: int, allow_new_line: bool)
    requires
        pmatch(s, p, operand_starts()) is None,
    ensures
        poperand(s, p, allow_new_line) matches Ok((o, _)) ==> operand_ok(o),
    decreases s.toks.len() - p, 0int,
{
    lemma_operand_start(s.toks[p].token_type);
    if s.toks[p].token_type == TokenType::OpenParenthes {
        if let Ok(p2) = pmove(s, p) {
            if p < p2 <= s.toks.len() {
                lemma_pexpr_ok(s, p2, true);
                if let Ok((inner, p3)) = pexpr(s, p2, true) {
                    if pexpect(s, p3, seq![TokenType::CloseParenthes]) is Ok {
                        assert(seq![TokenType::CloseParenthes][0] == TokenType::CloseParenthes);
                    }
                }
            }
        }
    }
}

/// The value of a successful step.
pub open spec fn ok_value<T>(r: Result<T, Seq<char>>) -> T {
    match r {
        Ok(v) => v,
        Err(_) => arbitrary(),
    }
}

/// Views of a sequence with one more token.
proof fn lemma_views_push(s: Seq<Token>, t: Token)
    ensures
        views(s.push(t)) == views(s).push(t@),
{
    assert(views(s.push(t)) =~= views(s).push(t@));
}


/* Statements */

/// A statement as the parser reads it.
pub ghost enum StatementShape {
    /// A definition or an assignment: its kind, the name, the operator and
    /// the expression.
    Define(StatementType, TokenView, TokenView, ExpressionShape),
    /// `print(name)`.
    Print(TokenView),
    /// An `if` with its condition and body, its `else if` parts (each the
    /// `if` token, the condition and the body) and its `else` body.
    If(
        TokenView,
        ExpressionShape,
        Seq<StatementShape>,
        Seq<(TokenView, ExpressionShape, Seq<StatementShape>)>,
        Option<Seq<StatementShape>>,
    ),
}

/// What one step of statement parsing found.
pub ghost enum Parsed {
    Node(StatementShape),
    /// A gap between statements: a space, a comment or a line end.
    Discarded,
    /// The end of the statements: the end of file, or a token that starts
    /// none.
    End,
}

/// The operators of an assignment to a defined variable.
pub open spec fn assignment_operators() -> Seq<TokenType> {
    seq![
        TokenType::Assign,
        TokenType::PlusEqual,
        TokenType::MinusEqual,
        TokenType::MulEqual,
        TokenType::DivEqual,
        TokenType::ModEqual,
    ]
}

/// The kind of definition that a keyword starts.
pub open spec fn define_kind(t: TokenType) -> Option<StatementType> {
    if t == TokenType::Bool {
        Some(StatementType::DefineBool)
    } else if t == TokenType::Int {
        Some(StatementType::DefineInt)
    } else if t == TokenType::Double {
        Some(StatementType::DefineDouble)
    } else if t == TokenType::Char {
        Some(StatementType::DefineChar)
    } else if t == TokenType::String {
        Some(StatementType::DefineString)
    } else if t == TokenType::Var {
        Some(StatementType::DefineVar)
    } else {
        None
    }
}

/// The tail of an assignment: one of the operators `ops`, an expression
/// on the same line, and the line end.
#[verifier::opaque]
pub open spec fn passign(s: Stream, p: int, ops: Seq<TokenType>) -> Result<
    (TokenView, ExpressionShape, int),
    Seq<char>,
> {
    match ptake(s, p, inline_gaps(), ops) {
        Err(m) => Err(m),
        Ok((op, p1)) => match pbypass(s, p1, inline_gaps()) {
            Err(m) => Err(m),
            Ok(p2) => match pexpr(s, p2, false) {
                Err(m) => Err(m),
                Ok((e, p3)) => match pexpect(s, p3, seq![TokenType::NewLine]) {
                    Err(m) => Err(m),
                    Ok((_, p4)) => Ok((op, e, p4)),
                },
            },
        },
    }
}

/// A definition `bool x = e` (or `int`, `double`, `char`, `string`,
/// `var`): the keyword, the name, `=`, the expression and the line end.
#[verifier::opaque]
pub open spec fn pdefine(s: Stream, p: int, kind: StatementType) -> Result<(StatementShape, int), Seq<char>> {
    match pdefine_parts(s, p) {
        Err(m) => Err(m),
        Ok((name, op, e, q)) => Ok((StatementShape::Define(kind, name, op, e), q)),
    }
}

/// The parts of a definition: the keyword is stepped over, then come the
/// name, `=`, the expression and the line end.
#[verifier::opaque]
pub open spec fn pdefine_parts(s: Stream, p: int) -> Result<
    (TokenView, TokenView, ExpressionShape, int),
    Seq<char>,
> {
    match pmove(s, p) {
        Err(m) => Err(m),
        Ok(p1) => match ptake(s, p1, inline_gaps(), seq![TokenType::Variable]) {
            Err(m) => Err(m),
            Ok((name, p2)) => match passign(s, p2, seq![TokenType::Assign]) {
                Err(m) => Err(m),
                Ok((op, e, p3)) => Ok((name, op, e, p3)),
            },
        },
    }
}

/// An assignment `x = e` (or `+=`, `-=`, `*=`, `/=`, `%=`) to the variable
/// at `p`.
#[verifier::opaque]
pub open spec fn pdefine_variable(s: Stream, p: int) -> Result<(StatementShape, int), Seq<char>> {
    match pmove(s, p) {
        Err(m) => Err(m),
        Ok(p1) => match passign(s, p1, assignment_operators()) {
            Err(m) => Err(m),
            Ok((op, e, p2)) => Ok((StatementShape::Define(StatementType::DefineVariable, s.toks[p], op, e), p2)),
        },
    }
}

/// `print(x)`.
#[verifier::opaque]
pub open spec fn pprint(s: Stream, p: int) -> Result<(StatementShape, int), Seq<char>> {
    match pmove(s, p) {
        Err(m) => Err(m),
        Ok(p1) => match ptake(s, p1, inline_gaps(), seq![TokenType::OpenParenthes]) {
            Err(m) => Err(m),
            Ok((_, p2)) => match ptake(s, p2, inline_gaps(), seq![TokenType::Variable]) {
                Err(m) => Err(m),
                Ok((v, p3)) => match ptake(s, p3, inline_gaps(), seq![TokenType::CloseParenthes]) {
                    Err(m) => Err(m),
                    Ok((_, p4)) => Ok((StatementShape::Print(v), p4)),
                },
            },
        },
    }
}


/// Kinds of tokens between statements: spaces, comments and line ends.
pub open spec fn is_gap(t: TokenType) -> bool {
    t == TokenType::SingleLineComment || t == TokenType::MultiLineComment || t == TokenType::Space
        || t == TokenType::NewLine
}

/// One step of statement parsing at `p`. Where no statement starts, it is
/// an error if `strict`, and the end otherwise.
#[verifier::opaque]
pub open spec fn pstatement(s: Stream, p: int, strict: bool) -> Result<(Parsed, int), Seq<char>>
    decreases s.toks.len() - p, 2int,
{
    if !(0 <= p < s.toks.len()) {
        Err(Seq::empty())
    } else {
        let t = s.toks[p].token_type;
        match define_kind(t) {
            Some(kind) => match pdefine(s, p, kind) {
                Err(m) => Err(m),
                Ok((sh, q)) => Ok((Parsed::Node(sh), q)),
            },
            None => if t == TokenType::Variable {
                match pdefine_variable(s, p) {
                    Err(m) => Err(m),
                    Ok((sh, q)) => Ok((Parsed::Node(sh), q)),
                }
            } else if t == TokenType::Print {
                match pprint(s, p) {
                    Err(m) => Err(m),
                    Ok((sh, q)) => Ok((Parsed::Node(sh), q)),
                }
            } else if t == TokenType::If {
                match pif(s, p) {
                    Err(m) => Err(m),
                    Ok((sh, q)) => Ok((Parsed::Node(sh), q)),
                }
            } else if is_gap(t) {
                match pmove(s, p) {
                    Err(m) => Err(m),
                    Ok(q) => Ok((Parsed::Discarded, q)),
                }
            } else if t == TokenType::Eof || !strict {
                Ok((Parsed::End, p))
            } else {
                Err(unexpected_error(s.mode, s.toks[p]))
            },
        }
    }
}

/// The statements from `p` up to where they end.
#[verifier::opaque]
pub open spec fn pstatements(s: Stream, p: int, strict: bool) -> Result<
    (Seq<StatementShape>, int),
    Seq<char>,
>
    decreases s.toks.len() - p, 3int,
{
    match pstatement(s, p, strict) {
        Err(m) => Err(m),
        Ok((Parsed::End, q)) => Ok((Seq::empty(), q)),
        Ok((Parsed::Discarded, q)) => if q <= p || q > s.toks.len() {
            Err(Seq::empty())
        } else {
            pstatements(s, q, strict)
        },
        Ok((Parsed::Node(sh), q)) => if q <= p || q > s.toks.len() {
            Err(Seq::empty())
        } else {
            match pstatements(s, q, strict) {
                Err(m) => Err(m),
                Ok((rest, q2)) => Ok((seq![sh] + rest, q2)),
            }
        },
    }
}

/// An `if` statement at `p`.
#[verifier::opaque]
pub open spec fn pif(s: Stream, p: int) -> Result<(StatementShape, int), Seq<char>>
    decreases s.toks.len() - p, 1int,
{
    match pconditional(s, p) {
        Err(m) => Err(m),
        Ok(((tok, cond, body), q)) => if q <= p || q > s.toks.len() {
            Err(Seq::empty())
        } else {
            match pelse(s, q) {
                Err(m) => Err(m),
                Ok((elifs, els, q2)) => Ok((StatementShape::If(tok, cond, body, elifs, els), q2)),
            }
        },
    }
}

/// The `if` at `p` with its condition and its block: `{`, the line end,
/// the statements, `}` and the line end.
#[verifier::opaque]
pub open spec fn pconditional(s: Stream, p: int) -> Result<
    ((TokenView, ExpressionShape, Seq<StatementShape>), int),
    Seq<char>,
>
    decreases s.toks.len() - p, 0int,
{
    let tok = s.toks[p];
    match pmove(s, p) {
        Err(m) => Err(m),
        Ok(p1) => match pbypass(s, p1, inline_gaps()) {
            Err(m) => Err(m),
            Ok(p2) => match pexpr(s, p2, false) {
                Err(m) => Err(m),
                Ok((cond, p3)) => match pexpect(s, p3, seq![TokenType::OpenBracket]) {
                    Err(m) => Err(m),
                    Ok((_, p4)) => match ptake(s, p4, comment_gaps(), seq![TokenType::NewLine]) {
                        Err(m) => Err(m),
                        Ok((_, p5)) => if p5 <= p || p5 > s.toks.len() {
                            Err(Seq::empty())
                        } else {
                            match pstatements(s, p5, false) {
                                Err(m) => Err(m),
                                Ok((body, p6)) => match pclose(s, p6) {
                                    Err(m) => Err(m),
                                    Ok(p7) => Ok(((tok, cond, body), p7)),
                                },
                            }
                        },
                    },
                },
            },
        },
    }
}

/// The block of an `else` at `p`: `{`, the statements, `}` and the line
/// end.
#[verifier::opaque]
pub open spec fn pelse_block(s: Stream, p: int) -> Result<(Seq<StatementShape>, int), Seq<char>>
    decreases s.toks.len() - p, 0int,
{
    match ptake(s, p, comment_gaps(), seq![TokenType::OpenBracket]) {
        Err(m) => Err(m),
        Ok((_, p1)) => if p1 <= p || p1 > s.toks.len() {
            Err(Seq::empty())
        } else {
            match pstatements(s, p1, false) {
                Err(m) => Err(m),
                Ok((body, p2)) => match pclose(s, p2) {
                    Err(m) => Err(m),
                    Ok(p3) => Ok((body, p3)),
                },
            }
        },
    }
}

/// The end of a block: `}` and the line end.
#[verifier::opaque]
pub open spec fn pclose(s: Stream, p: int) -> Result<int, Seq<char>> {
    match ptake(s, p, all_gaps(), seq![TokenType::CloseBracket]) {
        Err(m) => Err(m),
        Ok((_, p1)) => match ptake(s, p1, comment_gaps(), seq![TokenType::NewLine]) {
            Err(m) => Err(m),
            Ok((_, p2)) => Ok(p2),
        },
    }
}

/// What follows an `if` block: the `else if` parts, in order, and the
/// `else` body, if any.
#[verifier::opaque]
pub open spec fn pelse(s: Stream, p: int) -> Result<
    (Seq<(TokenView, ExpressionShape, Seq<StatementShape>)>, Option<Seq<StatementShape>>, int),
    Seq<char>,
>
    decreases s.toks.len() - p, 0int,
{
    match pbypass(s, p, all_gaps()) {
        Err(m) => Err(m),
        Ok(p1) => if s.toks[p1].token_type != TokenType::Else {
            Ok((Seq::empty(), None, p1))
        } else {
            match pmove(s, p1) {
                Err(m) => Err(m),
                Ok(p2) => match pbypass(s, p2, comment_gaps()) {
                    Err(m) => Err(m),
                    Ok(p3) => if p3 <= p || p3 > s.toks.len() {
                        Err(Seq::empty())
                    } else if s.toks[p3].token_type == TokenType::If {
                        match pconditional(s, p3) {
                            Err(m) => Err(m),
                            Ok((part, q)) => if q <= p || q > s.toks.len() {
                                Err(Seq::empty())
                            } else {
                                match pelse(s, q) {
                                    Err(m) => Err(m),
                                    Ok((elifs, els, q2)) => Ok((seq![part] + elifs, els, q2)),
                                }
                            },
                        }
                    } else {
                        match pelse_block(s, p3) {
                            Err(m) => Err(m),
                            Ok((body, q)) => Ok((Seq::empty(), Some(body), q)),
                        }
                    },
                },
            }
        },
    }
}

/// The tree that the expression parser builds of `e`.
pub open spec fn expression_node(e: ExpressionShape) -> OperationNodeView {
    match parse_expression(0, expression_tokens(e)) {
        Some((n, _)) => n,
        None => arbitrary(),
    }
}

/// The token is there and is `t`.
pub open spec fn token_is(o: Option<Token>, t: TokenView) -> bool {
    o matches Some(x) && x@ == t
}

/// The tree is there and is the one of `e`.
pub open spec fn tree_is(o: Option<OperationNode>, e: ExpressionShape) -> bool {
    o matches Some(x) && x@ == expression_node(e)
}

/// The parts of a definition node hold what the shape `sh` says.
pub open spec fn assignment_is(
    name: Option<Token>,
    operator: Option<Token>,
    left: Option<OperationNode>,
    sh: StatementShape,
) -> bool {
    match sh {
        StatementShape::Define(_, n, op, e) => token_is(name, n) && token_is(operator, op) && tree_is(
            left,
            e,
        ),
        _ => false,
    }
}

/// Every part of the statement but the one of its kind is empty.
pub open spec fn only_part(n: StatementNode, kind: StatementType) -> bool {
    &&& (kind != StatementType::DefineBool ==> n.define_bool_statement is None)
    &&& (kind != StatementType::DefineInt ==> n.define_int_statement is None)
    &&& (kind != StatementType::DefineDouble ==> n.define_double_statement is None)
    &&& (kind != StatementType::DefineChar ==> n.define_char_statement is None)
    &&& (kind != StatementType::DefineString ==> n.define_string_statement is None)
    &&& (kind != StatementType::DefineVariable ==> n.define_variable_statement is None)
    &&& (kind != StatementType::DefineVar ==> n.define_var_statement is None)
    &&& (kind != StatementType::Print ==> n.define_print_statement is None)
    &&& (kind != StatementType::DefineIf ==> n.define_if_statement is None)
}

/// The part of kind `kind` of the statement holds the definition `sh`.
pub open spec fn define_part_is(n: StatementNode, kind: StatementType, sh: StatementShape) -> bool {
    match kind {
        StatementType::DefineBool => n.define_bool_statement matches Some(d) && assignment_is(
            d.name,
            d.operator,
            d.left,
            sh,
        ),
        StatementType::DefineInt => n.define_int_statement matches Some(d) && assignment_is(
            d.name,
            d.operator,
            d.left,
            sh,
        ),
        StatementType::DefineDouble => n.define_double_statement matches Some(d) && assignment_is(
            d.name,
            d.operator,
            d.left,
            sh,
        ),
        StatementType::DefineChar => n.define_char_statement matches Some(d) && assignment_is(
            d.name,
            d.operator,
            d.left,
            sh,
        ),
        StatementType::DefineString => n.define_string_statement matches Some(d) && assignment_is(
            d.name,
            d.operator,
            d.left,
            sh,
        ),
        StatementType::DefineVariable => n.define_variable_statement matches Some(d)
            && assignment_is(d.name, d.operator, d.left, sh),
        StatementType::DefineVar => n.define_var_statement matches Some(d) && assignment_is(
            d.name,
            d.operator,
            d.left,
            sh,
        ),
        _ => false,
    }
}

/// The statement node holds the statement `sh`, and nothing else.
pub open spec fn statement_is(n: StatementNode, sh: StatementShape) -> bool
    decreases sh, 1int,
{
    match sh {
        StatementShape::Define(kind, _, _, _) => n.statement_type == Some(kind) && only_part(n, kind)
            && define_part_is(n, kind, sh),
        StatementShape::Print(v) => {
            &&& n.statement_type == Some(StatementType::Print)
            &&& only_part(n, StatementType::Print)
            &&& n.define_print_statement matches Some(d) && token_is(d.variable, v)
        },
        StatementShape::If(_, _, _, _, _) => {
            &&& n.statement_type == Some(StatementType::DefineIf)
            &&& only_part(n, StatementType::DefineIf)
            &&& n.define_if_statement matches Some(ifs) && if_statement_is(ifs, sh)
        },
    }
}

/// The `if` node holds the `if` statement `sh`.
pub open spec fn if_statement_is(ifs: DefineIfStatementNode, sh: StatementShape) -> bool
    decreases sh, 0int,
{
    match sh {
        StatementShape::If(tok, cond, body, elifs, els) => {
            &&& ifs.define_if_node matches Some(i)
            &&& token_is(i.token, tok)
            &&& tree_is(i.condition, cond)
            &&& statements_are(i.statements.statements@, body)
            &&& else_ifs_are(ifs.define_if_else_nodes@, elifs)
            &&& match els {
                None => ifs.define_else_node is None,
                Some(b) => ifs.define_else_node matches Some(e) && statements_are(
                    e.statements.statements@,
                    b,
                ),
            }
        },
        _ => false,
    }
}

/// The statement nodes hold the statements `shs`, one for one.
pub open spec fn statements_are(ns: Seq<StatementNode>, shs: Seq<StatementShape>) -> bool
    decreases shs, 2int,
{
    if shs.len() == 0 {
        ns.len() == 0
    } else {
        &&& ns.len() > 0
        &&& statement_is(ns[0], shs[0])
        &&& statements_are(ns.drop_first(), shs.drop_first())
    }
}

/// The `else if` nodes hold the parts `shs`, one for one.
pub open spec fn else_ifs_are(
    ns: Seq<DefineIfElseNode>,
    shs: Seq<(TokenView, ExpressionShape, Seq<StatementShape>)>,
) -> bool
    decreases shs, 2int,
{
    if shs.len() == 0 {
        ns.len() == 0
    } else {
        &&& ns.len() > 0
        &&& token_is(ns[0].token, shs[0].0)
        &&& tree_is(ns[0].condition, shs[0].1)
        &&& statements_are(ns[0].statements.statements@, shs[0].2)
        &&& else_ifs_are(ns.drop_first(), shs.drop_first())
    }
}

/* The parser */

/// Reads statements from the tokens of a source.
pub struct Parser {
    tokens: Vec<Token>,
    error: Option<String>,
    position: usize,
    mode: Mode,
}

impl Parser {
    /// The tokens the parser reads.
    pub closed spec fn stream(self) -> Stream {
        Stream {
            toks: views(self.tokens@),
            err: match self.error {
                Some(e) => Some(e@),
                None => None,
            },
            mode: self.mode,
        }
    }

    /// The position of the current token.
    pub closed spec fn pos(self) -> int {
        self.position as int
    }

    /// How many tokens are left from the current one on.
    pub closed spec fn remaining(self) -> int {
        self.tokens@.len() - self.pos()
    }

    /// The kind of the current token.
    pub closed spec fn current_kind(self) -> TokenType {
        self.stream().toks[self.pos()].token_type
    }

    /// The position is that of a token of a well-formed stream.
    pub closed spec fn wf(self) -> bool {
        &&& stream_wf(self.stream())
        &&& 0 <= self.position < self.tokens@.len()
    }

    /// A parser at the first token of the source that `lexer` reads; the
    /// lexing error, if the source yields no token at all.
    pub fn new(lexer: Lexer) -> (r: Result<Parser, String>)
        requires
            lexer.wf(),
        ensures
            ({
                let all = lex_all(
                    lexer.chars(),
                    lexer.index(),
                    lexer.line_number(),
                    lexer.column(),
                    lexer.mode_of(),
                );
                match r {
                    Ok(p) => p.wf() && p.pos() == 0 && p.stream() == Stream {
                        toks: all.0,
                        err: all.1,
                        mode: lexer.mode_of(),
                    },
                    Err(e) => all.0.len() == 0 && all.1 == Some(e@),
                }
            }),
    {
        let mut lexer = lexer;
        let mode = lexer.get_mode();
        let (tokens, error) = tokenize(&mut lexer);
        proof {
            lemma_views_len(tokens@);
        }
        if tokens.len() == 0 {
            match error {
                Some(e) => Err(e),
                None => {
                    assert(false);
                    Err(String::new())
                },
            }
        } else {
            let parser = Parser { tokens, error, position: 0, mode };
            proof {
                let s = parser.stream();
                assert forall|k: int| 0 <= k < s.toks.len() - 1 implies (#[trigger] s.toks[k]).token_type
                    != TokenType::Eof by {
                    assert(s.toks[k] == parser.tokens@[k]@);
                }
                if s.err is None {
                    assert(s.toks.last() == parser.tokens@.last()@);
                }
            }
            Ok(parser)
        }
    }

    /// The current token.
    fn current(&self) -> (t: &Token)
        requires
            self.wf(),
        ensures
            t@ == self.stream().toks[self.pos()],
    {
        proof {
            lemma_views_len(self.tokens@);
        }
        &self.tokens[self.position]
    }

    /// Steps to the next token.
    fn _move(&mut self) -> (r: Result<(), String>)
        requires
            old(self).wf(),
        ensures
            final(self).wf(),
            final(self).stream() == old(self).stream(),
            match (r, pmove(old(self).stream(), old(self).pos())) {
                (Ok(()), Ok(q)) => final(self).pos() == q,
                (Err(e), Err(m)) => e@ == m,
                _ => false,
            },
            old(self).stream().toks[old(self).pos()].token_type != TokenType::Eof && r is Ok
                ==> final(self).pos() == old(self).pos() + 1,
    {
        proof {
            lemma_views_len(self.tokens@);
            if self.stream().toks[self.pos()].token_type != TokenType::Eof {
                lemma_move_ahead(self.stream(), self.pos());
            }
        }
        if self.position < self.tokens.len() - 1 {
            self.position = self.position + 1;
            Ok(())
        } else {
            match &self.error {
                Some(e) => Err(e.clone()),
                None => Ok(()),
            }
        }
    }

    /// Whether the current token is of one of the kinds `types`; the error
    /// that says what was expected, if not.
    pub fn _match(&mut self, types: Vec<TokenType>) -> (r: Result<(), String>)
        requires
            old(self).wf(),
        ensures
            *final(self) == *old(self),
            match (r, pmatch(old(self).stream(), old(self).pos(), types@)) {
                (Ok(()), None) => true,
                (Err(e), Some(m)) => e@ == m,
                _ => false,
            },
    {
        let t = self.current();
        if contains_type(&types, t.token_type) {
            Ok(())
        } else {
            let mut message = String::from_str("Exepected ");
            let list = list_string(&types);
            message.append(list.as_str());
            message.append(" found ");
            let name = kind_name_string(t.token_type);
            message.append(name.as_str());
            Err(syntax_error_string(self.mode, message, t))
        }
    }

    /// Whether the current token is of one of the kinds `types`.
    pub fn _is_matched_with(&mut self, types: Vec<TokenType>) -> (b: bool)
        requires
            old(self).wf(),
        ensures
            *final(self) == *old(self),
            b == types@.contains(old(self).stream().toks[old(self).pos()].token_type),
    {
        let t = self.current();
        contains_type(&types, t.token_type)
    }

    /// Steps over every token of the kinds `types`; reaching the end of the
    /// file is an error.
    pub fn bypass(&mut self, types: Vec<TokenType>) -> (r: Result<(), String>)
        requires
            old(self).wf(),
        ensures
            final(self).wf(),
            final(self).stream() == old(self).stream(),
            match (r, pbypass(old(self).stream(), old(self).pos(), types@)) {
                (Ok(()), Ok(q)) => final(self).pos() == q,
                (Err(e), Err(m)) => e@ == m,
                _ => false,
            },
            r is Ok ==> old(self).pos() <= final(self).pos() && final(self).current_kind()
                != TokenType::Eof && !types@.contains(final(self).current_kind()),
    {
        let ghost s = self.stream();
        let ghost p0 = self.pos();
        proof {
            lemma_bypass_lands(s, p0, types@);
        }
        loop
            invariant
                self.wf(),
                self.stream() == s,
                p0 <= self.pos(),
                pbypass(s, p0, types@) == pbypass(s, self.pos(), types@),
                s == old(self).stream(),
                p0 == old(self).pos(),
            decreases self.tokens@.len() - self.pos(),
        {
            let t = self.current();
            if t.token_type == TokenType::Eof {
                let message = String::from_str("Unexpected end of file");
                return Err(syntax_error_string(self.mode, message, t));
            }
            if contains_type(&types, t.token_type) {
                let ghost p = self.pos();
                match self._move() {
                    Ok(()) => {},
                    Err(e) => {
                        return Err(e);
                    },
                }
                proof {
                    lemma_views_len(self.tokens@);
                }
            } else {
                proof {
                    lemma_bypass_lands(s, p0, types@);
                }
                return Ok(());
            }
        }
    }

    /// Steps over the kinds `skip`, then takes a token of one of the kinds
    /// `want`.
    fn take(&mut self, skip: Vec<TokenType>, want: Vec<TokenType>) -> (r: Result<Token, String>)
        requires
            old(self).wf(),
        ensures
            final(self).wf(),
            final(self).stream() == old(self).stream(),
            match (r, ptake(old(self).stream(), old(self).pos(), skip@, want@)) {
                (Ok(t), Ok((tv, q))) => t@ == tv && final(self).pos() == q,
                (Err(e), Err(m)) => e@ == m,
                _ => false,
            },
            r is Ok ==> old(self).pos() < final(self).pos(),
    {
        match self.bypass(skip) {
            Ok(()) => {},
            Err(e) => {
                return Err(e);
            },
        }
        match self._match(want) {
            Ok(()) => {},
            Err(e) => {
                return Err(e);
            },
        }
        let t = self.current().clone();
        match self._move() {
            Ok(()) => Ok(t),
            Err(e) => Err(e),
        }
    }

    /// Takes a token of one of the kinds `want` where the parser stands.
    fn expect(&mut self, want: Vec<TokenType>) -> (r: Result<Token, String>)
        requires
            old(self).wf(),
        ensures
            final(self).wf(),
            final(self).stream() == old(self).stream(),
            match (r, pexpect(old(self).stream(), old(self).pos(), want@)) {
                (Ok(t), Ok((tv, q))) => t@ == tv && final(self).pos() == q,
                (Err(e), Err(m)) => e@ == m,
                _ => false,
            },
            r is Ok ==> old(self).pos() <= final(self).pos(),
    {
        match self._match(want) {
            Ok(()) => {},
            Err(e) => {
                return Err(e);
            },
        }
        let t = self.current().clone();
        match self._move() {
            Ok(()) => Ok(t),
            Err(e) => Err(e),
        }
    }
}


impl Parser {
    /// Collects an expression into `tokens_array`, in order, with its gaps
    /// left out; the input of an `input()` is followed by the type it is
    /// converted to, `string` where none is named.
    pub fn match_expression(&mut self, allow_new_line: bool, tokens_array: &mut VecDeque<Token>) -> (r:
        Result<bool, String>)
        requires
            old(self).wf(),
        ensures
            final(self).wf(),
            final(self).stream() == old(self).stream(),
            match (r, pexpr(old(self).stream(), old(self).pos(), allow_new_line)) {
                (Ok(b), Ok((e, q))) => !b && final(self).pos() == q && views(final(tokens_array)@)
                    == views(old(tokens_array)@) + expression_tokens(e),
                (Err(x), Err(m)) => x@ == m,
                _ => false,
            },
            r is Ok ==> old(self).pos() < final(self).pos(),
        decreases old(self).remaining(), 2int,
    {
        let ghost s = self.stream();
        let ghost p = self.pos();
        let ghost arr0 = views(tokens_array@);
        let gap_types = if allow_new_line {
            all_gap_types()
        } else {
            inline_gap_types()
        };
        match self.bypass(gap_types) {
            Ok(()) => {},
            Err(e) => {
                return Err(e);
            },
        }
        let starts = operand_start_types();
        match self._match(starts) {
            Ok(()) => {},
            Err(e) => {
                return Err(e);
            },
        }
        let ghost p1 = self.pos();
        proof {
            lemma_operand_start(self.current_kind());
        }
        match self.match_operand(allow_new_line, tokens_array) {
            Ok(()) => {},
            Err(e) => {
                return Err(e);
            },
        }
        let ghost q = self.pos();
        let ghost o = ok_value(poperand(s, p1, allow_new_line)).0;
        let gap_types = if allow_new_line {
            all_gap_types()
        } else {
            inline_gap_types()
        };
        match self.bypass(gap_types) {
            Ok(()) => {},
            Err(e) => {
                return Err(e);
            },
        }
        let ghost q1 = self.pos();
        let operators = binary_operator_types();
        if self._is_matched_with(operators) {
            let op = self.current().clone();
            let ghost arr1 = views(tokens_array@);
            proof {
                lemma_views_push(tokens_array@, op);
            }
            tokens_array.push_back(op);
            proof {
                lemma_binary_operator(self.current_kind());
            }
            match self._move() {
                Ok(()) => {},
                Err(e) => {
                    return Err(e);
                },
            }
            let ghost arr2 = views(tokens_array@);
            match self.match_expression(allow_new_line, tokens_array) {
                Ok(_) => {},
                Err(e) => {
                    return Err(e);
                },
            }
            proof {
                let r = ok_value(pexpr(s, q1 + 1, allow_new_line)).0;
                assert(views(tokens_array@) =~= arr0 + expression_tokens(
                    ExpressionShape::Binary(o, s.toks[q1], Box::new(r)),
                ));
            }
            Ok(false)
        } else {
            Ok(false)
        }
    }

    /// Collects the operand that starts at the current token.
    fn match_operand(&mut self, allow_new_line: bool, tokens_array: &mut VecDeque<Token>) -> (r: Result<
        (),
        String,
    >)
        requires
            old(self).wf(),
            operand_starts().contains(old(self).current_kind()),
        ensures
            final(self).wf(),
            final(self).stream() == old(self).stream(),
            match (r, poperand(old(self).stream(), old(self).pos(), allow_new_line)) {
                (Ok(()), Ok((o, q))) => final(self).pos() == q && views(final(tokens_array)@) == views(
                    old(tokens_array)@,
                ) + operand_tokens(o),
                (Err(x), Err(m)) => x@ == m,
                _ => false,
            },
            r is Ok ==> old(self).pos() < final(self).pos(),
        decreases old(self).remaining(), 1int,
    {
        let ghost arr0 = views(tokens_array@);
        proof {
            lemma_operand_start(self.current_kind());
        }
        let kind = self.current().token_type;
        if kind == TokenType::OpenParenthes {
            self.match_parenthesized(allow_new_line, tokens_array)
        } else if kind == TokenType::Input {
            self.match_input(tokens_array)
        } else {
            let t = self.current().clone();
            let ghost tv = t@;
            proof {
                lemma_views_push(tokens_array@, t);
            }
            tokens_array.push_back(t);
            proof {
                assert(views(tokens_array@) =~= arr0 + operand_tokens(OperandShape::Leaf(tv)));
            }
            self._move()
        }
    }

    /// Collects an operand in parentheses.
    fn match_parenthesized(&mut self, allow_new_line: bool, tokens_array: &mut VecDeque<Token>) -> (r:
        Result<(), String>)
        requires
            old(self).wf(),
            old(self).current_kind() == TokenType::OpenParenthes,
        ensures
            final(self).wf(),
            final(self).stream() == old(self).stream(),
            match (r, poperand(old(self).stream(), old(self).pos(), allow_new_line)) {
                (Ok(()), Ok((o, q))) => final(self).pos() == q && views(final(tokens_array)@) == views(
                    old(tokens_array)@,
                ) + operand_tokens(o),
                (Err(x), Err(m)) => x@ == m,
                _ => false,
            },
            r is Ok ==> old(self).pos() < final(self).pos(),
        decreases old(self).remaining(), 0int,
    {
        let ghost s = self.stream();
        let ghost p = self.pos();
        let ghost arr0 = views(tokens_array@);
        let t = self.current().clone();
        let ghost tv = t@;
        proof {
            lemma_views_push(tokens_array@, t);
        }
        tokens_array.push_back(t);
        match self._move() {
            Ok(()) => {},
            Err(e) => {
                return Err(e);
            },
        }
        match self.match_expression(true, tokens_array) {
            Ok(_) => {},
            Err(e) => {
                return Err(e);
            },
        }
        let close = match self.expect(just(TokenType::CloseParenthes)) {
            Ok(c) => c,
            Err(e) => {
                return Err(e);
            },
        };
        let ghost cv = close@;
        proof {
            lemma_views_push(tokens_array@, close);
        }
        tokens_array.push_back(close);
        let gap_types = if allow_new_line {
            all_gap_types()
        } else {
            inline_gap_types()
        };
        match self.bypass(gap_types) {
            Ok(()) => {},
            Err(e) => {
                return Err(e);
            },
        }
        proof {
            let inner = ok_value(pexpr(s, p + 1, true)).0;
            assert(views(tokens_array@) =~= arr0 + operand_tokens(
                OperandShape::Paren(tv, Box::new(inner), cv),
            ));
        }
        Ok(())
    }

    /// Collects an `input()`, with the type it is converted to.
    fn match_input(&mut self, tokens_array: &mut VecDeque<Token>) -> (r: Result<(), String>)
        requires
            old(self).wf(),
            old(self).current_kind() == TokenType::Input,
        ensures
            final(self).wf(),
            final(self).stream() == old(self).stream(),
            match (r, pinput(old(self).stream(), old(self).pos())) {
                (Ok(()), Ok((o, q))) => final(self).pos() == q && views(final(tokens_array)@) == views(
                    old(tokens_array)@,
                ) + operand_tokens(o),
                (Err(x), Err(m)) => x@ == m,
                _ => false,
            },
            r is Ok ==> old(self).pos() < final(self).pos(),
    {
        let ghost arr0 = views(tokens_array@);
        let t = self.current().clone();
        let default_convert_to_token = Token {
            start_line: t.start_line,
            start_pos: t.start_pos,
            token_type: TokenType::String,
            value: String::from_str("string"),
        };
        let ghost tv = t@;
        proof {
            lemma_views_push(tokens_array@, t);
        }
        tokens_array.push_back(t);
        match self._move() {
            Ok(()) => {},
            Err(e) => {
                return Err(e);
            },
        }
        match self.take(inline_gap_types(), just(TokenType::OpenParenthes)) {
            Ok(_) => {},
            Err(e) => {
                return Err(e);
            },
        }
        match self.take(all_gap_types(), just(TokenType::CloseParenthes)) {
            Ok(_) => {},
            Err(e) => {
                return Err(e);
            },
        }
        match self.bypass(inline_gap_types()) {
            Ok(()) => {},
            Err(e) => {
                return Err(e);
            },
        }
        if self._is_matched_with(just(TokenType::As)) {
            match self._move() {
                Ok(()) => {},
                Err(e) => {
                    return Err(e);
                },
            }
            let ty = match self.take(inline_gap_types(), convert_type_types()) {
                Ok(ty) => ty,
                Err(e) => {
                    return Err(e);
                },
            };
            let ghost yv = ty@;
            proof {
                lemma_views_push(tokens_array@, ty);
            }
            tokens_array.push_back(ty);
            proof {
                assert(views(tokens_array@) =~= arr0 + operand_tokens(OperandShape::Input(tv, yv)));
            }
        } else {
            proof {
                lemma_views_push(tokens_array@, default_convert_to_token);
            }
            tokens_array.push_back(default_convert_to_token);
            proof {
                assert(views(tokens_array@) =~= arr0 + operand_tokens(
                    OperandShape::Input(tv, default_convert(tv)),
                ));
            }
        }
        Ok(())
    }
}


impl Parser {
    /// The tail of an assignment: one of the operators `ops`, an expression
    /// on the same line and the line end; the operator and the expression's
    /// tree.
    fn match_assignment(&mut self, ops: Vec<TokenType>) -> (r: Result<(Token, OperationNode), String>)
        requires
            old(self).wf(),
        ensures
            final(self).wf(),
            final(self).stream() == old(self).stream(),
            match (r, passign(old(self).stream(), old(self).pos(), ops@)) {
                (Ok((op, tree)), Ok((opv, e, q))) => op@ == opv && tree@ == expression_node(e)
                    && final(self).pos() == q,
                (Err(x), Err(m)) => x@ == m,
                _ => false,
            },
            r is Ok ==> old(self).pos() < final(self).pos(),
            r matches Ok((_, tree)) ==> has_values(tree@),
    {
        proof {
            reveal(passign);
        }
        let ghost s = self.stream();
        let operator = match self.take(inline_gap_types(), ops) {
            Ok(t) => t,
            Err(e) => {
                return Err(e);
            },
        };
        match self.bypass(inline_gap_types()) {
            Ok(()) => {},
            Err(e) => {
                return Err(e);
            },
        }
        let ghost p2 = self.pos();
        let mut tokens_array: VecDeque<Token> = VecDeque::new();
        match self.match_expression(false, &mut tokens_array) {
            Ok(_) => {},
            Err(e) => {
                return Err(e);
            },
        }
        match self.expect(just(TokenType::NewLine)) {
            Ok(_) => {},
            Err(e) => {
                return Err(e);
            },
        }
        proof {
            let e = ok_value(pexpr(s, p2, false)).0;
            lemma_pexpr_ok(s, p2, false);
            lemma_parse_whole_expression(e);
            assert(views(tokens_array@) =~= expression_tokens(e));
        }
        let left = construct_expression_node(&mut tokens_array);
        Ok((operator, left))
    }

    /// `bool x = e`.
    pub fn define_bool(&mut self) -> (r: Result<(bool, DefineBoolNode), String>)
        requires
            old(self).wf(),
        ensures
            final(self).wf(),
            final(self).stream() == old(self).stream(),
            match (r, pdefine(old(self).stream(), old(self).pos(), StatementType::DefineBool)) {
                (Ok((done, node)), Ok((sh, q))) => !done && final(self).pos() == q && assignment_is(
                    node.name,
                    node.operator,
                    node.left,
                    sh,
                ),
                (Err(x), Err(m)) => x@ == m,
                _ => false,
            },
            r is Ok ==> old(self).pos() < final(self).pos(),
            r matches Ok((_, node)) ==> definition_ready(node.name, node.left),
    {
        proof {
            reveal(pdefine);
        }
        let mut node = DefineBoolNode::new();
        match self.define_head() {
            Ok((name, operator, left)) => {
                node.name = Some(name);
                node.operator = Some(operator);
                node.left = Some(left);
                Ok((false, node))
            },
            Err(e) => Err(e),
        }
    }

    /// `int x = e`.
    pub fn define_int(&mut self) -> (r: Result<(bool, DefineIntNode), String>)
        requires
            old(self).wf(),
        ensures
            final(self).wf(),
            final(self).stream() == old(self).stream(),
            match (r, pdefine(old(self).stream(), old(self).pos(), StatementType::DefineInt)) {
                (Ok((done, node)), Ok((sh, q))) => !done && final(self).pos() == q && assignment_is(
                    node.name,
                    node.operator,
                    node.left,
                    sh,
                ),
                (Err(x), Err(m)) => x@ == m,
                _ => false,
            },
            r is Ok ==> old(self).pos() < final(self).pos(),
            r matches Ok((_, node)) ==> definition_ready(node.name, node.left),
    {
        proof {
            reveal(pdefine);
        }
        let mut node = DefineIntNode::new();
        match self.define_head() {
            Ok((name, operator, left)) => {
                node.name = Some(name);
                node.operator = Some(operator);
                node.left = Some(left);
                Ok((false, node))
            },
            Err(e) => Err(e),
        }
    }

    /// `double x = e`.
    pub fn define_double(&mut self) -> (r: Result<(bool, DefineDoubleNode), String>)
        requires
            old(self).wf(),
        ensures
            final(self).wf(),
            final(self).stream() == old(self).stream(),
            match (r, pdefine(old(self).stream(), old(self).pos(), StatementType::DefineDouble)) {
                (Ok((done, node)), Ok((sh, q))) => !done && final(self).pos() == q && assignment_is(
                    node.name,
                    node.operator,
                    node.left,
                    sh,
                ),
                (Err(x), Err(m)) => x@ == m,
                _ => false,
            },
            r is Ok ==> old(self).pos() < final(self).pos(),
            r matches Ok((_, node)) ==> definition_ready(node.name, node.left),
    {
        proof {
            reveal(pdefine);
        }
        let mut node = DefineDoubleNode::new();
        match self.define_head() {
            Ok((name, operator, left)) => {
                node.name = Some(name);
                node.operator = Some(operator);
                node.left = Some(left);
                Ok((false, node))
            },
            Err(e) => Err(e),
        }
    }

    /// `char x = e`.
    pub fn define_char(&mut self) -> (r: Result<(bool, DefineCharNode), String>)
        requires
            old(self).wf(),
        ensures
            final(self).wf(),
            final(self).stream() == old(self).stream(),
            match (r, pdefine(old(self).stream(), old(self).pos(), StatementType::DefineChar)) {
                (Ok((done, node)), Ok((sh, q))) => !done && final(self).pos() == q && assignment_is(
                    node.name,
                    node.operator,
                    node.left,
                    sh,
                ),
                (Err(x), Err(m)) => x@ == m,
                _ => false,
            },
            r is Ok ==> old(self).pos() < final(self).pos(),
            r matches Ok((_, node)) ==> definition_ready(node.name, node.left),
    {
        proof {
            reveal(pdefine);
        }
        let mut node = DefineCharNode::new();
        match self.define_head() {
            Ok((name, operator, left)) => {
                node.name = Some(name);
                node.operator = Some(operator);
                node.left = Some(left);
                Ok((false, node))
            },
            Err(e) => Err(e),
        }
    }

    /// `string x = e`.
    pub fn define_string(&mut self) -> (r: Result<(bool, DefineStringNode), String>)
        requires
            old(self).wf(),
        ensures
            final(self).wf(),
            final(self).stream() == old(self).stream(),
            match (r, pdefine(old(self).stream(), old(self).pos(), StatementType::DefineString)) {
                (Ok((done, node)), Ok((sh, q))) => !done && final(self).pos() == q && assignment_is(
                    node.name,
                    node.operator,
                    node.left,
                    sh,
                ),
                (Err(x), Err(m)) => x@ == m,
                _ => false,
            },
            r is Ok ==> old(self).pos() < final(self).pos(),
            r matches Ok((_, node)) ==> definition_ready(node.name, node.left),
    {
        proof {
            reveal(pdefine);
        }
        let mut node = DefineStringNode::new();
        match self.define_head() {
            Ok((name, operator, left)) => {
                node.name = Some(name);
                node.operator = Some(operator);
                node.left = Some(left);
                Ok((false, node))
            },
            Err(e) => Err(e),
        }
    }

    /// `var x = e`.
    pub fn define_var(&mut self) -> (r: Result<(bool, DefineVarNode), String>)
        requires
            old(self).wf(),
        ensures
            final(self).wf(),
            final(self).stream() == old(self).stream(),
            match (r, pdefine(old(self).stream(), old(self).pos(), StatementType::DefineVar)) {
                (Ok((done, node)), Ok((sh, q))) => !done && final(self).pos() == q && assignment_is(
                    node.name,
                    node.operator,
                    node.left,
                    sh,
                ),
                (Err(x), Err(m)) => x@ == m,
                _ => false,
            },
            r is Ok ==> old(self).pos() < final(self).pos(),
            r matches Ok((_, node)) ==> definition_ready(node.name, node.left),
    {
        proof {
            reveal(pdefine);
        }
        let mut node = DefineVarNode::new();
        match self.define_head() {
            Ok((name, operator, left)) => {
                node.name = Some(name);
                node.operator = Some(operator);
                node.left = Some(left);
                Ok((false, node))
            },
            Err(e) => Err(e),
        }
    }

    /// The parts of a definition: the keyword is stepped over, then come
    /// the name, `=`, the expression and the line end.
    fn define_head(&mut self) -> (r: Result<(Token, Token, OperationNode), String>)
        requires
            old(self).wf(),
        ensures
            final(self).wf(),
            final(self).stream() == old(self).stream(),
            match (r, pdefine_parts(old(self).stream(), old(self).pos())) {
                (Ok((name, op, tree)), Ok((nv, opv, e, q))) => final(self).pos() == q && name@ == nv
                    && op@ == opv && tree@ == expression_node(e),
                (Err(x), Err(m)) => x@ == m,
                _ => false,
            },
            r is Ok ==> old(self).pos() < final(self).pos(),
            r matches Ok((_, _, tree)) ==> has_values(tree@),
    {
        proof {
            reveal(pdefine_parts);
        }
        match self._move() {
            Ok(()) => {},
            Err(e) => {
                return Err(e);
            },
        }
        let name = match self.take(inline_gap_types(), just(TokenType::Variable)) {
            Ok(t) => t,
            Err(e) => {
                return Err(e);
            },
        };
        match self.match_assignment(just(TokenType::Assign)) {
            Ok((operator, left)) => Ok((name, operator, left)),
            Err(e) => Err(e),
        }
    }

    /// An assignment to the variable at the current token: `x = e`, or
    /// `+=`, `-=`, `*=`, `/=`, `%=`.
    pub fn define_variable(&mut self) -> (r: Result<(bool, DefineVariableNode), String>)
        requires
            old(self).wf(),
        ensures
            final(self).wf(),
            final(self).stream() == old(self).stream(),
            match (r, pdefine_variable(old(self).stream(), old(self).pos())) {
                (Ok((done, node)), Ok((sh, q))) => !done && final(self).pos() == q && assignment_is(
                    node.name,
                    node.operator,
                    node.left,
                    sh,
                ),
                (Err(x), Err(m)) => x@ == m,
                _ => false,
            },
            r is Ok ==> old(self).pos() < final(self).pos(),
            r matches Ok((_, node)) ==> definition_ready(node.name, node.left) && node.operator is Some,
    {
        proof {
            reveal(pdefine_variable);
        }
        let mut node = DefineVariableNode::new();
        let name = self.current().clone();
        match self._move() {
            Ok(()) => {},
            Err(e) => {
                return Err(e);
            },
        }
        match self.match_assignment(assignment_operator_types()) {
            Ok((operator, left)) => {
                node.name = Some(name);
                node.operator = Some(operator);
                node.left = Some(left);
                Ok((false, node))
            },
            Err(e) => Err(e),
        }
    }

    /// `print(x)`.
    pub fn define_print(&mut self) -> (r: Result<(bool, DefinePrintNode), String>)
        requires
            old(self).wf(),
        ensures
            final(self).wf(),
            final(self).stream() == old(self).stream(),
            match (r, pprint(old(self).stream(), old(self).pos())) {
                (Ok((done, node)), Ok((sh, q))) => !done && final(self).pos() == q && (sh matches StatementShape::Print(v) && token_is(node.variable, v)),
                (Err(x), Err(m)) => x@ == m,
                _ => false,
            },
            r is Ok ==> old(self).pos() < final(self).pos(),
            r matches Ok((_, node)) ==> node.variable is Some,
    {
        proof {
            reveal(pprint);
        }
        let mut node = DefinePrintNode::new();
        match self._move() {
            Ok(()) => {},
            Err(e) => {
                return Err(e);
            },
        }
        match self.take(inline_gap_types(), just(TokenType::OpenParenthes)) {
            Ok(_) => {},
            Err(e) => {
                return Err(e);
            },
        }
        let variable = match self.take(inline_gap_types(), just(TokenType::Variable)) {
            Ok(t) => t,
            Err(e) => {
                return Err(e);
            },
        };
        match self.take(inline_gap_types(), just(TokenType::CloseParenthes)) {
            Ok(_) => {},
            Err(e) => {
                return Err(e);
            },
        }
        node.variable = Some(variable);
        Ok((false, node))
    }
}


/// What a step leaves for the steps before it: `acc` in front of the
/// statements it read.
pub open spec fn after_statements(acc: Seq<StatementShape>, r: Result<(Seq<StatementShape>, int), Seq<char>>) -> Result<
    (Seq<StatementShape>, int),
    Seq<char>,
> {
    match r {
        Ok((rest, q)) => Ok((acc + rest, q)),
        Err(m) => Err(m),
    }
}

/// `acc` in front of the `else if` parts that a step read.
pub open spec fn after_else_ifs(
    acc: Seq<(TokenView, ExpressionShape, Seq<StatementShape>)>,
    r: Result<
        (Seq<(TokenView, ExpressionShape, Seq<StatementShape>)>, Option<Seq<StatementShape>>, int),
        Seq<char>,
    >,
) -> Result<
    (Seq<(TokenView, ExpressionShape, Seq<StatementShape>)>, Option<Seq<StatementShape>>, int),
    Seq<char>,
> {
    match r {
        Ok((rest, els, q)) => Ok((acc + rest, els, q)),
        Err(m) => Err(m),
    }
}

proof fn lemma_after_nothing(r: Result<(Seq<StatementShape>, int), Seq<char>>)
    ensures
        after_statements(Seq::empty(), r) == r,
{
    if let Ok((rest, q)) = r {
        assert(Seq::<StatementShape>::empty() + rest =~= rest);
    }
}

proof fn lemma_after_no_else_ifs(
    r: Result<
        (Seq<(TokenView, ExpressionShape, Seq<StatementShape>)>, Option<Seq<StatementShape>>, int),
        Seq<char>,
    >,
)
    ensures
        after_else_ifs(Seq::empty(), r) == r,
{
    if let Ok((rest, els, q)) = r {
        assert(Seq::<(TokenView, ExpressionShape, Seq<StatementShape>)>::empty() + rest =~= rest);
    }
}

proof fn lemma_statements_are_push(ns: Seq<StatementNode>, shs: Seq<StatementShape>, n: StatementNode, sh: StatementShape)
    requires
        statements_are(ns, shs),
        statement_is(n, sh),
    ensures
        statements_are(ns.push(n), shs.push(sh)),
    decreases shs.len(),
{
    if shs.len() == 0 {
        assert(ns.push(n).drop_first() =~= Seq::<StatementNode>::empty());
        assert(shs.push(sh).drop_first() =~= Seq::<StatementShape>::empty());
        assert(ns.push(n)[0] == n);
        assert(shs.push(sh)[0] == sh);
        assert(statements_are(ns.push(n).drop_first(), shs.push(sh).drop_first()));
    } else {
        lemma_statements_are_push(ns.drop_first(), shs.drop_first(), n, sh);
        assert(ns.push(n)[0] == ns[0]);
        assert(shs.push(sh)[0] == shs[0]);
        assert(ns.push(n).drop_first() =~= ns.drop_first().push(n));
        assert(shs.push(sh).drop_first() =~= shs.drop_first().push(sh));
        assert(statements_are(ns.push(n).drop_first(), shs.push(sh).drop_first()));
    }
}

proof fn lemma_else_ifs_are_push(
    ns: Seq<DefineIfElseNode>,
    shs: Seq<(TokenView, ExpressionShape, Seq<StatementShape>)>,
    n: DefineIfElseNode,
    sh: (TokenView, ExpressionShape, Seq<StatementShape>),
)
    requires
        else_ifs_are(ns, shs),
        token_is(n.token, sh.0),
        tree_is(n.condition, sh.1),
        statements_are(n.statements.statements@, sh.2),
    ensures
        else_ifs_are(ns.push(n), shs.push(sh)),
    decreases shs.len(),
{
    if shs.len() == 0 {
        assert(ns.push(n).drop_first() =~= Seq::<DefineIfElseNode>::empty());
        assert(shs.push(sh).drop_first() =~= Seq::<(TokenView, ExpressionShape, Seq<StatementShape>)>::empty());
        assert(ns.push(n)[0] == n);
        assert(shs.push(sh)[0] == sh);
        assert(else_ifs_are(ns.push(n).drop_first(), shs.push(sh).drop_first()));
    } else {
        lemma_else_ifs_are_push(ns.drop_first(), shs.drop_first(), n, sh);
        assert(ns.push(n)[0] == ns[0]);
        assert(shs.push(sh)[0] == shs[0]);
        assert(ns.push(n).drop_first() =~= ns.drop_first().push(n));
        assert(shs.push(sh).drop_first() =~= shs.drop_first().push(sh));
        assert(else_ifs_are(ns.push(n).drop_first(), shs.push(sh).drop_first()));
    }
}

impl Parser {
    /// The statements from the current token up to where they end.
    fn statements(&mut self, return_error_if_not_matched: bool) -> (r: Result<StatementsNode, String>)
        requires
            old(self).wf(),
        ensures
            final(self).wf(),
            final(self).stream() == old(self).stream(),
            match (r, pstatements(old(self).stream(), old(self).pos(), return_error_if_not_matched)) {
                (Ok(tree), Ok((shs, q))) => final(self).pos() == q && statements_are(
                    tree.statements@,
                    shs,
                ),
                (Err(x), Err(m)) => x@ == m,
                _ => false,
            },
            r is Ok ==> old(self).pos() <= final(self).pos(),
            r matches Ok(tree) ==> block_ready(tree, 0),
        decreases old(self).remaining(), 3int,
    {
        proof {
            reveal_with_fuel(pstatements, 1);
            reveal_with_fuel(pstatement, 1);
        }
        let ghost s = self.stream();
        let ghost p0 = self.pos();
        let mut syntax_tree = StatementsNode::new();
        let ghost mut acc: Seq<StatementShape> = Seq::empty();
        proof {
            lemma_after_nothing(pstatements(s, p0, return_error_if_not_matched));
        }
        loop
            invariant
                self.wf(),
                self.stream() == s,
                s == old(self).stream(),
                p0 == old(self).pos(),
                p0 <= self.pos(),
                statements_are(syntax_tree.statements@, acc),
                forall|k: int| 0 <= k < syntax_tree.statements@.len() ==> statement_ready(#[trigger] syntax_tree.statements@[k]),
                pstatements(s, p0, return_error_if_not_matched) == after_statements(
                    acc,
                    pstatements(s, self.pos(), return_error_if_not_matched),
                ),
            decreases self.remaining(),
        {
            proof {
                reveal_with_fuel(pstatements, 1);
                reveal_with_fuel(pstatement, 1);
            }
            let ghost p = self.pos();
            let statement_node = match self.parse_statement(return_error_if_not_matched) {
                Ok(x) => x,
                Err(e) => {
                    return Err(e);
                },
            };
            proof {
                lemma_views_len(self.tokens@);
            }
            if statement_node.0 {
                assert(acc + Seq::<StatementShape>::empty() =~= acc);
                proof {
                    lemma_block_ready(syntax_tree, 0);
                }
                return Ok(syntax_tree);
            }
            if matches!(statement_node.1.statement_type, Some(StatementType::Discarded)) {
                continue;
            }
            let ghost sh = match ok_value(pstatement(s, p, return_error_if_not_matched)).0 {
                Parsed::Node(sh) => sh,
                _ => arbitrary(),
            };
            proof {
                lemma_statements_are_push(syntax_tree.statements@, acc, statement_node.1, sh);
                let rest = pstatements(s, self.pos(), return_error_if_not_matched);
                if let Ok((x, q)) = rest {
                    assert(acc + (seq![sh] + x) =~= acc.push(sh) + x);
                }
                acc = acc.push(sh);
            }
            syntax_tree.statements.push_back(statement_node.1);
        }
    }

    /// One step of statement parsing: a statement, a gap between statements
    /// (a node of kind `Discarded`), or the end (`true`, with an empty
    /// node). Where no statement starts, it is an error if
    /// `return_error_if_not_matched`, and the end otherwise.
    pub fn parse_statement(&mut self, return_error_if_not_matched: bool) -> (r: Result<(bool, StatementNode), String>)
        requires
            old(self).wf(),
        ensures
            final(self).wf(),
            final(self).stream() == old(self).stream(),
            match (r, pstatement(old(self).stream(), old(self).pos(), return_error_if_not_matched)) {
                (Ok((done, node)), Ok((parsed, q))) => final(self).pos() == q && match parsed {
                    Parsed::End => done && node.statement_type is None && only_part(
                        node,
                        StatementType::Discarded,
                    ),
                    Parsed::Discarded => !done && node.statement_type == Some(StatementType::Discarded)
                        && only_part(node, StatementType::Discarded),
                    Parsed::Node(sh) => !done && statement_is(node, sh),
                },
                (Err(x), Err(m)) => x@ == m,
                _ => false,
            },
            r matches Ok((_, node)) ==> statement_ready(node),
            r matches Ok((done, _)) && !done ==> old(self).pos() < final(self).pos(),
            r is Ok ==> old(self).pos() <= final(self).pos(),
        decreases old(self).remaining(), 2int,
    {
        proof {
            reveal_with_fuel(pstatement, 1);
            reveal_with_fuel(pif, 1);
            reveal(pdefine);
            reveal(pdefine_variable);
            reveal(pprint);
        }
        let ghost s = self.stream();
        let ghost p = self.pos();
        let kind = self.current().token_type;
        let mut node = StatementNode::new();
        if kind == TokenType::Bool {
            node.statement_type = Some(StatementType::DefineBool);
            match self.define_bool() {
                Ok(result) => {
                    node.define_bool_statement = Some(result.1);
                    Ok((result.0, node))
                },
                Err(e) => Err(e),
            }
        } else if kind == TokenType::Int {
            node.statement_type = Some(StatementType::DefineInt);
            match self.define_int() {
                Ok(result) => {
                    node.define_int_statement = Some(result.1);
                    Ok((result.0, node))
                },
                Err(e) => Err(e),
            }
        } else if kind == TokenType::Double {
            node.statement_type = Some(StatementType::DefineDouble);
            match self.define_double() {
                Ok(result) => {
                    node.define_double_statement = Some(result.1);
                    Ok((result.0, node))
                },
                Err(e) => Err(e),
            }
        } else if kind == TokenType::Char {
            node.statement_type = Some(StatementType::DefineChar);
            match self.define_char() {
                Ok(result) => {
                    node.define_char_statement = Some(result.1);
                    Ok((result.0, node))
                },
                Err(e) => Err(e),
            }
        } else if kind == TokenType::String {
            node.statement_type = Some(StatementType::DefineString);
            match self.define_string() {
                Ok(result) => {
                    node.define_string_statement = Some(result.1);
                    Ok((result.0, node))
                },
                Err(e) => Err(e),
            }
        } else if kind == TokenType::Var {
            node.statement_type = Some(StatementType::DefineVar);
            match self.define_var() {
                Ok(result) => {
                    node.define_var_statement = Some(result.1);
                    Ok((result.0, node))
                },
                Err(e) => Err(e),
            }
        } else if kind == TokenType::Variable {
            node.statement_type = Some(StatementType::DefineVariable);
            match self.define_variable() {
                Ok(result) => {
                    node.define_variable_statement = Some(result.1);
                    Ok((result.0, node))
                },
                Err(e) => Err(e),
            }
        } else if kind == TokenType::Print {
            node.statement_type = Some(StatementType::Print);
            match self.define_print() {
                Ok(result) => {
                    node.define_print_statement = Some(result.1);
                    Ok((result.0, node))
                },
                Err(e) => Err(e),
            }
        } else if kind == TokenType::If {
            node.statement_type = Some(StatementType::DefineIf);
            match self.define_if_statement() {
                Ok(result) => {
                    node.define_if_statement = Some(result.1);
                    Ok((result.0, node))
                },
                Err(e) => Err(e),
            }
        } else if kind == TokenType::SingleLineComment || kind == TokenType::MultiLineComment || kind
            == TokenType::Space || kind == TokenType::NewLine {
            match self._move() {
                Ok(()) => {},
                Err(e) => {
                    return Err(e);
                },
            }
            node.statement_type = Some(StatementType::Discarded);
            Ok((false, node))
        } else if kind == TokenType::Eof {
            Ok((true, node))
        } else if return_error_if_not_matched {
            let t = self.current();
            let mut message = String::from_str("Unexpected token ");
            let name = kind_name_string(t.token_type);
            message.append(name.as_str());
            Err(syntax_error_string(self.mode, message, t))
        } else {
            Ok((true, node))
        }
    }

    /// An `if` statement with its `else if` parts and its `else` part.
    #[verifier::rlimit(40)]
    pub fn define_if_statement(&mut self) -> (r: Result<(bool, DefineIfStatementNode), String>)
        requires
            old(self).wf(),
        ensures
            final(self).wf(),
            final(self).stream() == old(self).stream(),
            match (r, pif(old(self).stream(), old(self).pos())) {
                (Ok((done, node)), Ok((sh, q))) => !done && final(self).pos() == q && if_statement_is(
                    node,
                    sh,
                ),
                (Err(x), Err(m)) => x@ == m,
                _ => false,
            },
            r is Ok ==> old(self).pos() < final(self).pos(),
            r matches Ok((_, node)) ==> if_ready(node),
        decreases old(self).remaining(), 1int,
    {
        proof {
            reveal_with_fuel(pif, 1);
            reveal_with_fuel(pconditional, 1);
            reveal_with_fuel(pelse, 1);
            reveal_with_fuel(pelse_block, 1);
        }
        let ghost s = self.stream();
        let ghost p0 = self.pos();
        let mut define_if_statement_node = DefineIfStatementNode::new();
        let mut define_if_node = DefineIfNode::new();
        match self.match_conditional() {
            Ok((token, condition, statements)) => {
                define_if_node.token = Some(token);
                define_if_node.condition = Some(condition);
                define_if_node.statements = statements;
            },
            Err(e) => {
                return Err(e);
            },
        }
        define_if_statement_node.define_if_node = Some(define_if_node);
        let ghost p8 = self.pos();
        let ghost mut acc: Seq<(TokenView, ExpressionShape, Seq<StatementShape>)> = Seq::empty();
        proof {
            lemma_after_no_else_ifs(pelse(s, p8));
        }
        loop
            invariant
                self.wf(),
                self.stream() == s,
                s == old(self).stream(),
                p0 == old(self).pos(),
                p0 < p8 <= self.pos(),
                pconditional(s, p0) matches Ok(((tok, cond, body), q)) && q == p8 && (
                define_if_statement_node.define_if_node matches Some(i) && token_is(i.token, tok)
                    && tree_is(i.condition, cond) && statements_are(i.statements.statements@, body)),
                define_if_statement_node.define_else_node is None,
                define_if_statement_node.define_if_node matches Some(n) && (n.token is Some && (
                n.condition matches Some(c) && has_values(c@)) && block_ready(n.statements, 0)),
                forall|k: int|
                    0 <= k < define_if_statement_node.define_if_else_nodes@.len() ==> else_if_ready(
                        #[trigger] define_if_statement_node.define_if_else_nodes@[k],
                    ),
                else_ifs_are(define_if_statement_node.define_if_else_nodes@, acc),
                pelse(s, p8) == after_else_ifs(acc, pelse(s, self.pos())),
            decreases self.remaining(),
        {
            proof {
                reveal_with_fuel(pif, 1);
                reveal_with_fuel(pelse, 1);
                reveal_with_fuel(pconditional, 1);
                reveal_with_fuel(pelse_block, 1);
            }
            let ghost pc = self.pos();
            match self.bypass(all_gap_types()) {
                Ok(()) => {},
                Err(e) => {
                    return Err(e);
                },
            }
            if self._is_matched_with(just(TokenType::Else)) {
                match self._move() {
                    Ok(()) => {},
                    Err(e) => {
                        return Err(e);
                    },
                }
                match self.bypass(comment_gap_types()) {
                    Ok(()) => {},
                    Err(e) => {
                        return Err(e);
                    },
                }
                let ghost p3 = self.pos();
                if self._is_matched_with(just(TokenType::If)) {
                    let mut define_if_else_node = DefineIfElseNode::new();
                    match self.match_conditional() {
                        Ok((token, condition, statements)) => {
                            define_if_else_node.token = Some(token);
                            define_if_else_node.condition = Some(condition);
                            define_if_else_node.statements = statements;
                        },
                        Err(e) => {
                            return Err(e);
                        },
                    }
                    proof {
                        lemma_views_len(self.tokens@);
                        let part = ok_value(pconditional(s, p3)).0;
                        lemma_else_ifs_are_push(
                            define_if_statement_node.define_if_else_nodes@,
                            acc,
                            define_if_else_node,
                            part,
                        );
                        let rest = pelse(s, self.pos());
                        if let Ok((x, els, q)) = rest {
                            assert(acc + (seq![part] + x) =~= acc.push(part) + x);
                        }
                        acc = acc.push(part);
                    }
                    define_if_statement_node.define_if_else_nodes.push_back(define_if_else_node);
                    continue;
                } else {
                    let mut define_else_node = DefineElseNode::new();
                    match self.match_else_block() {
                        Ok(statements) => {
                            define_else_node.statements = statements;
                        },
                        Err(e) => {
                            return Err(e);
                        },
                    }
                    define_if_statement_node.define_else_node = Some(define_else_node);
                    proof {
                        assert(acc + Seq::<(TokenView, ExpressionShape, Seq<StatementShape>)>::empty() =~= acc);
                        lemma_else_ifs_ready(define_if_statement_node, 0);
                    }
                    return Ok((false, define_if_statement_node));
                }
            }
            proof {
                assert(acc + Seq::<(TokenView, ExpressionShape, Seq<StatementShape>)>::empty() =~= acc);
                lemma_else_ifs_ready(define_if_statement_node, 0);
            }
            return Ok((false, define_if_statement_node));
        }
    }

    /// An `if` (or the `if` of an `else if`) with its condition and its
    /// block.
    fn match_conditional(&mut self) -> (r: Result<(Token, OperationNode, StatementsNode), String>)
        requires
            old(self).wf(),
        ensures
            final(self).wf(),
            final(self).stream() == old(self).stream(),
            match (r, pconditional(old(self).stream(), old(self).pos())) {
                (Ok((token, condition, statements)), Ok(((tok, cond, body), q))) => final(self).pos()
                    == q && token@ == tok && condition@ == expression_node(cond) && statements_are(
                    statements.statements@,
                    body,
                ),
                (Err(x), Err(m)) => x@ == m,
                _ => false,
            },
            r is Ok ==> old(self).pos() < final(self).pos(),
            r matches Ok((_, condition, statements)) ==> has_values(condition@) && block_ready(
                statements,
                0,
            ),
        decreases old(self).remaining(), 0int,
    {
        proof {
            reveal_with_fuel(pconditional, 1);
            reveal_with_fuel(pstatements, 1);
        }
        let ghost s = self.stream();
        let token = self.current().clone();
        match self._move() {
            Ok(()) => {},
            Err(e) => {
                return Err(e);
            },
        }
        match self.bypass(inline_gap_types()) {
            Ok(()) => {},
            Err(e) => {
                return Err(e);
            },
        }
        let ghost p2 = self.pos();
        let mut tokens_array: VecDeque<Token> = VecDeque::new();
        match self.match_expression(false, &mut tokens_array) {
            Ok(_) => {},
            Err(e) => {
                return Err(e);
            },
        }
        proof {
            let e = ok_value(pexpr(s, p2, false)).0;
            lemma_pexpr_ok(s, p2, false);
            lemma_parse_whole_expression(e);
            assert(views(tokens_array@) =~= expression_tokens(e));
        }
        let condition = construct_expression_node(&mut tokens_array);
        match self.expect(just(TokenType::OpenBracket)) {
            Ok(_) => {},
            Err(e) => {
                return Err(e);
            },
        }
        match self.take(comment_gap_types(), just(TokenType::NewLine)) {
            Ok(_) => {},
            Err(e) => {
                return Err(e);
            },
        }
        proof {
            lemma_views_len(self.tokens@);
        }
        let statements = match self.statements(false) {
            Ok(st) => st,
            Err(e) => {
                return Err(e);
            },
        };
        match self.close_block() {
            Ok(()) => Ok((token, condition, statements)),
            Err(e) => Err(e),
        }
    }

    /// The block of an `else`.
    fn match_else_block(&mut self) -> (r: Result<StatementsNode, String>)
        requires
            old(self).wf(),
        ensures
            final(self).wf(),
            final(self).stream() == old(self).stream(),
            match (r, pelse_block(old(self).stream(), old(self).pos())) {
                (Ok(statements), Ok((body, q))) => final(self).pos() == q && statements_are(
                    statements.statements@,
                    body,
                ),
                (Err(x), Err(m)) => x@ == m,
                _ => false,
            },
            r is Ok ==> old(self).pos() < final(self).pos(),
            r matches Ok(statements) ==> block_ready(statements, 0),
        decreases old(self).remaining(), 0int,
    {
        proof {
            reveal_with_fuel(pelse_block, 1);
            reveal_with_fuel(pstatements, 1);
        }
        match self.take(comment_gap_types(), just(TokenType::OpenBracket)) {
            Ok(_) => {},
            Err(e) => {
                return Err(e);
            },
        }
        proof {
            lemma_views_len(self.tokens@);
        }
        let statements = match self.statements(false) {
            Ok(st) => st,
            Err(e) => {
                return Err(e);
            },
        };
        match self.close_block() {
            Ok(()) => Ok(statements),
            Err(e) => Err(e),
        }
    }

    /// The end of a block: `}` and the line end.
    fn close_block(&mut self) -> (r: Result<(), String>)
        requires
            old(self).wf(),
        ensures
            final(self).wf(),
            final(self).stream() == old(self).stream(),
            match (r, pclose(old(self).stream(), old(self).pos())) {
                (Ok(()), Ok(q)) => final(self).pos() == q,
                (Err(x), Err(m)) => x@ == m,
                _ => false,
            },
            r is Ok ==> old(self).pos() < final(self).pos(),
    {
        proof {
            reveal(pclose);
        }
        match self.take(all_gap_types(), just(TokenType::CloseBracket)) {
            Ok(_) => {},
            Err(e) => {
                return Err(e);
            },
        }
        match self.take(comment_gap_types(), just(TokenType::NewLine)) {
            Ok(_) => Ok(()),
            Err(e) => Err(e),
        }
    }
}


/// Every statement of the source, from the current token up to the end of
/// file; a token that starts no statement is an error.
pub fn parse(parser: &mut Parser) -> (r: Result<StatementsNode, String>)
    requires
        old(parser).wf(),
    ensures
        final(parser).wf(),
        final(parser).stream() == old(parser).stream(),
        match (r, pstatements(old(parser).stream(), old(parser).pos(), true)) {
            (Ok(tree), Ok((shs, q))) => final(parser).pos() == q && statements_are(tree.statements@, shs),
            (Err(x), Err(m)) => x@ == m,
            _ => false,
        },
        r matches Ok(tree) ==> block_ready(tree, 0),
{
    parser.statements(true)
}

/// One step of statement parsing (see `Parser::parse_statement`).
pub fn statement(parser: &mut Parser, return_error_if_not_matched: bool) -> (r: Result<
    (bool, StatementNode),
    String,
>)
    requires
        old(parser).wf(),
    ensures
        final(parser).wf(),
        final(parser).stream() == old(parser).stream(),
        match (r, pstatement(old(parser).stream(), old(parser).pos(), return_error_if_not_matched)) {
            (Ok((done, node)), Ok((parsed, q))) => final(parser).pos() == q && match parsed {
                Parsed::End => done && node.statement_type is None && only_part(
                    node,
                    StatementType::Discarded,
                ),
                Parsed::Discarded => !done && node.statement_type == Some(StatementType::Discarded)
                    && only_part(node, StatementType::Discarded),
                Parsed::Node(sh) => !done && statement_is(node, sh),
            },
            (Err(x), Err(m)) => x@ == m,
            _ => false,
        },
        r matches Ok((_, node)) ==> statement_ready(node),
{
    parser.parse_statement(return_error_if_not_matched)
}

/// A strict parse that succeeds stops at the end of file: no token is left
/// unread.
pub proof fn lemma_strict_parse_reaches_end(s: Stream, p: int)
    ensures
        pstatements(s, p, true) matches Ok((_, q)) ==> 0 <= q < s.toks.len() && s.toks[q].token_type
            == TokenType::Eof,
    decreases s.toks.len() - p,
{
    reveal_with_fuel(pstatements, 1);
    reveal_with_fuel(pstatement, 1);
    if let Ok((parsed, q)) = pstatement(s, p, true) {
        if !(parsed is End) && p < q <= s.toks.len() {
            lemma_strict_parse_reaches_end(s, q);
        }
    }
}

/// The operators of an assignment to a defined variable.
fn assignment_operator_types() -> (v: Vec<TokenType>)
    ensures
        v@ == assignment_operators(),
{
    let v = vec![
        TokenType::Assign,
        TokenType::PlusEqual,
        TokenType::MinusEqual,
        TokenType::MulEqual,
        TokenType::DivEqual,
        TokenType::ModEqual,
    ];
    assert(v@ =~= assignment_operators());
    v
}

/// The one kind `t`.
fn just(t: TokenType) -> (v: Vec<TokenType>)
    ensures
        v@ == seq![t],
        forall|k: TokenType| #[trigger] v@.contains(k) <==> k == t,
{
    let v = vec![t];
    assert(v@ =~= seq![t]);
    assert(v@[0] == t);
    v
}

/// Kinds of tokens that start an operand.
fn operand_start_types() -> (v: Vec<TokenType>)
    ensures
        v@ == operand_starts(),
{
    let v = vec![
        TokenType::True,
        TokenType::False,
        TokenType::IntNumber,
        TokenType::DoubleNumber,
        TokenType::Character,
        TokenType::StringSequence,
        TokenType::Variable,
        TokenType::Input,
        TokenType::OpenParenthes,
    ];
    assert(v@ =~= operand_starts());
    v
}

/// Kinds of tokens of the binary operators.
fn binary_operator_types() -> (v: Vec<TokenType>)
    ensures
        v@ == binary_operators(),
{
    let v = vec![
        TokenType::Equal,
        TokenType::GreaterThanOrEqual,
        TokenType::GreaterThan,
        TokenType::LessThanOrEqual,
        TokenType::LessThan,
        TokenType::NotEqual,
        TokenType::Plus,
        TokenType::Minus,
        TokenType::Mul,
        TokenType::Div,
        TokenType::Mod,
        TokenType::Or,
        TokenType::And,
    ];
    assert(v@ =~= binary_operators());
    v
}

/// Kinds of tokens that name the type an input is converted to.
fn convert_type_types() -> (v: Vec<TokenType>)
    ensures
        v@ == convert_types(),
{
    let v = vec![TokenType::Bool, TokenType::Int, TokenType::Double, TokenType::Char, TokenType::String];
    assert(v@ =~= convert_types());
    v
}

/// The views of a sequence of tokens are as many as the tokens, each the
/// view of its token.
proof fn lemma_views_len(s: Seq<Token>)
    ensures
        views(s).len() == s.len(),
        forall|i: int| 0 <= i < s.len() ==> #[trigger] views(s)[i] == s[i]@,
{
}

/// Whether `t` is one of `types`.
fn contains_type(types: &Vec<TokenType>, t: TokenType) -> (b: bool)
    ensures
        b == types@.contains(t),
{
    let mut i: usize = 0;
    while i < types.len()
        invariant
            i <= types@.len(),
            forall|k: int| 0 <= k < i ==> types@[k] != t,
        decreases types@.len() - i,
    {
        if types[i] == t {
            assert(types@[i as int] == t);
            return true;
        }
        i = i + 1;
    }
    false
}

/// The name of a token kind.
pub fn kind_name_string(t: TokenType) -> (s: String)
    ensures
        s@ == kind_name(t),
{
    let name = match t {
        TokenType::Eof => "Eof",
        TokenType::NewLine => "NewLine",
        TokenType::Space => "Space",
        TokenType::SingleLineComment => "SingleLineComment",
        TokenType::MultiLineComment => "MultiLineComment",
        TokenType::Bool => "Bool",
        TokenType::Int => "Int",
        TokenType::Double => "Double",
        TokenType::Char => "Char",
        TokenType::String => "String",
        TokenType::Var => "Var",
        TokenType::As => "As",
        TokenType::True => "True",
        TokenType::False => "False",
        TokenType::IntNumber => "IntNumber",
        TokenType::DoubleNumber => "DoubleNumber",
        TokenType::Character => "Character",
        TokenType::StringSequence => "StringSequence",
        TokenType::Assign => "Assign",
        TokenType::Equal => "Equal",
        TokenType::GreaterThanOrEqual => "GreaterThanOrEqual",
        TokenType::GreaterThan => "GreaterThan",
        TokenType::LessThanOrEqual => "LessThanOrEqual",
        TokenType::LessThan => "LessThan",
        TokenType::NotEqual => "NotEqual",
        TokenType::Plus => "Plus",
        TokenType::PlusEqual => "PlusEqual",
        TokenType::Minus => "Minus",
        TokenType::MinusEqual => "MinusEqual",
        TokenType::Mul => "Mul",
        TokenType::MulEqual => "MulEqual",
        TokenType::Div => "Div",
        TokenType::DivEqual => "DivEqual",
        TokenType::Mod => "Mod",
        TokenType::ModEqual => "ModEqual",
        TokenType::Or => "Or",
        TokenType::And => "And",
        TokenType::OpenParenthes => "OpenParenthes",
        TokenType::CloseParenthes => "CloseParenthes",
        TokenType::OpenBracket => "OpenBracket",
        TokenType::CloseBracket => "CloseBracket",
        TokenType::Variable => "Variable",
        TokenType::Print => "Print",
        TokenType::Input => "Input",
        TokenType::If => "If",
        TokenType::Else => "Else",
        TokenType::For => "For",
        TokenType::Comma => "Comma",
        TokenType::In => "In",
        TokenType::Continue => "Continue",
        TokenType::Break => "Break",
        TokenType::BadToken => "BadToken",
    };
    String::from_str(name)
}

/// A list of token kinds, as `{:?}` prints it.
pub fn list_string(types: &Vec<TokenType>) -> (s: String)
    ensures
        s@ == list_text(types@),
{
    let mut s = String::from_str("[");
    let mut i: usize = 0;
    while i < types.len()
        invariant
            i <= types@.len(),
            s@ == "["@ + kind_names(types@.take(i as int)),
        decreases types@.len() - i,
    {
        let ghost before = s@;
        if i > 0 {
            s.append(", ");
        }
        let name = kind_name_string(types[i]);
        s.append(name.as_str());
        proof {
            let t = types@.take(i as int + 1);
            assert(t.drop_last() =~= types@.take(i as int));
            assert(t.last() == types@[i as int]);
            if i == 0 {
                assert(types@.take(0) =~= Seq::<TokenType>::empty());
            }
        }
        i = i + 1;
    }
    assert(types@.take(types@.len() as int) =~= types@);
    s.append("]");
    s
}

/// A syntax error reported at token `t`.
pub(crate) fn syntax_error_string(mode: Mode, message: String, t: &Token) -> (s: String)
    ensures
        s@ == syntax_error(mode, message@, t@),
{
    let mut s = mode.to_string();
    s.append(": Syntax Error -> ");
    s.append(message.as_str());
    s.append(", line ");
    push_decimal(&mut s, t.start_line as u128);
    s.append(":");
    push_decimal(&mut s, t.start_pos as u128);
    s.append(".");
    s
}

/// Spaces and block comments.
fn inline_gap_types() -> (v: Vec<TokenType>)
    ensures
        v@ == inline_gaps(),
{
    let v = vec![TokenType::Space, TokenType::MultiLineComment];
    assert(v@ =~= inline_gaps());
    v
}

/// Spaces and comments of both kinds.
fn comment_gap_types() -> (v: Vec<TokenType>)
    ensures
        v@ == comment_gaps(),
{
    let v = vec![TokenType::Space, TokenType::SingleLineComment, TokenType::MultiLineComment];
    assert(v@ =~= comment_gaps());
    v
}

/// Spaces, comments and line ends.
fn all_gap_types() -> (v: Vec<TokenType>)
    ensures
        v@ == all_gaps(),
{
    let v = vec![
        TokenType::Space,
        TokenType::SingleLineComment,
        TokenType::MultiLineComment,
        TokenType::NewLine,
    ];
    assert(v@ =~= all_gaps());
    v
}

} // verus!
