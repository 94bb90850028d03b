use vstd::prelude::*;
use vstd::string::*;

use crate::analyzer::{operator_name, operator_name_string};
use crate::syntax_tree::OperatorType;
use crate::text::{decimal_text, parse_i64, parse_i64_text, push_char, push_decimal};
use crate::tokens::{text_equals, TokenType};

verus! {

/// The kind of a value that the interpreter computes.
#[derive(Debug, Clone, Copy, PartialEq, Eq, Structural)]
pub enum ValueKind {
    Boolean,
    Integer,
    Double,
    Character,
    String,
}

/// How the interpreter combines the values of an operation's two operands.
#[derive(Debug, Clone, Copy, PartialEq, Eq, Structural)]
pub enum EvaluationStep {
    /// Both taken as doubles (an integer converted): a double.
    DoubleArithmetic,
    /// Both taken as doubles, compared: a boolean.
    DoubleComparison,
    /// The integers taken as doubles, the result cut back to an integer.
    IntegerArithmetic,
    /// The integers divided as doubles: a double.
    IntegerDivision,
    /// The integers compared as doubles: a boolean.
    IntegerComparison,
    /// The booleans compared or joined: a boolean.
    BooleanOperation,
    /// Two texts joined, a character taken as a text: a string.
    Concat,
    /// Two characters joined: a string.
    CharacterConcat,
}

/// `+`, `-`, `*`, `/` and `%`.
pub open spec fn is_arithmetic_operator(op: OperatorType) -> bool {
    op == OperatorType::Plus || op == OperatorType::Minus || op == OperatorType::Mul || op == OperatorType::Div
        || op == OperatorType::Mod
}

/// The message of an operator that no rule combines, at `line`:`pos`.
pub open spec fn undefined_operator_error(op: OperatorType, line: int, pos: int) -> Seq<char> {
    "Engine Interpreter: Syntax Error -> Undefined operator "@ + operator_name(op) + " behavior, line "@
        + decimal_text(line as nat) + ":"@ + decimal_text(pos as nat) + "."@
}

/// How the operation `op` combines operands of the kinds `left` and
/// `right` (`None` for a value of no kind): a double on either side makes
/// it a double operation, else an integer one, else a boolean one, else a
/// joining of texts; the operator's token is at `line`:`pos`.
pub open spec fn evaluation_rule(
    op: OperatorType,
    left: Option<ValueKind>,
    right: Option<ValueKind>,
    line: int,
    pos: int,
) -> Result<EvaluationStep, Seq<char>> {
    let either = |k: ValueKind| left == Some(k) || right == Some(k);
    if either(ValueKind::Double) {
        if is_arithmetic_operator(op) {
            Ok(EvaluationStep::DoubleArithmetic)
        } else {
            Ok(EvaluationStep::DoubleComparison)
        }
    } else if either(ValueKind::Integer) {
        if is_arithmetic_operator(op) && op != OperatorType::Div {
            Ok(EvaluationStep::IntegerArithmetic)
        } else if op == OperatorType::Div {
            Ok(EvaluationStep::IntegerDivision)
        } else {
            Ok(EvaluationStep::IntegerComparison)
        }
    } else if either(ValueKind::Boolean) {
        Ok(EvaluationStep::BooleanOperation)
    } else if either(ValueKind::String) {
        Ok(EvaluationStep::Concat)
    } else if either(ValueKind::Character) {
        Ok(EvaluationStep::CharacterConcat)
    } else {
        Err(undefined_operator_error(op, line, pos))
    }
}

/// Decides how the operation `op` combines operands of the kinds `left`
/// and `right`, or gives the message of an operator that no rule combines,
/// at `start_line`:`start_pos`.
pub fn evaluation_step(
    op: OperatorType,
    left: Option<ValueKind>,
    right: Option<ValueKind>,
    start_line: u64,
    start_pos: u64,
) -> (r: Result<EvaluationStep, String>)
    ensures
        match (r, evaluation_rule(op, left, right, start_line as int, start_pos as int)) {
            (Ok(s), Ok(t)) => s == t,
            (Err(e), Err(m)) => e@ == m,
            _ => false,
        },
{
    let arithmetic = op == OperatorType::Plus || op == OperatorType::Minus || op == OperatorType::Mul || op
        == OperatorType::Div || op == OperatorType::Mod;
    if left == Some(ValueKind::Double) || right == Some(ValueKind::Double) {
        if arithmetic {
            Ok(EvaluationStep::DoubleArithmetic)
        } else {
            Ok(EvaluationStep::DoubleComparison)
        }
    } else if left == Some(ValueKind::Integer) || right == Some(ValueKind::Integer) {
        if arithmetic && op != OperatorType::Div {
            Ok(EvaluationStep::IntegerArithmetic)
        } else if op == OperatorType::Div {
            Ok(EvaluationStep::IntegerDivision)
        } else {
            Ok(EvaluationStep::IntegerComparison)
        }
    } else if left == Some(ValueKind::Boolean) || right == Some(ValueKind::Boolean) {
        Ok(EvaluationStep::BooleanOperation)
    } else if left == Some(ValueKind::String) || right == Some(ValueKind::String) {
        Ok(EvaluationStep::Concat)
    } else if left == Some(ValueKind::Character) || right == Some(ValueKind::Character) {
        Ok(EvaluationStep::CharacterConcat)
    } else {
        let mut s = String::from_str("Engine Interpreter: Syntax Error -> Undefined operator ");
        s.append(operator_name_string(op).as_str());
        s.append(" behavior, line ");
        push_decimal(&mut s, start_line as u128);
        s.append(":");
        push_decimal(&mut s, start_pos as u128);
        s.append(".");
        Err(s)
    }
}

/// The boolean that `op` gives of the booleans `a` and `b`, `false` below
/// `true`; any operator but `==`, `!=`, `||`, `&&`, `>`, `>=` and `<`
/// compares with `<=`.
pub open spec fn boolean_result(op: OperatorType, a: bool, b: bool) -> bool {
    if op == OperatorType::Equal {
        a == b
    } else if op == OperatorType::NotEqual {
        a != b
    } else if op == OperatorType::Or {
        a || b
    } else if op == OperatorType::And {
        a && b
    } else if op == OperatorType::GreaterThan {
        a && !b
    } else if op == OperatorType::GreaterThanOrEqual {
        a || !b
    } else if op == OperatorType::LessThan {
        !a && b
    } else {
        !a || b
    }
}

/// Applies `op` to the booleans `a` and `b`.
pub fn boolean_operation(op: OperatorType, a: bool, b: bool) -> (r: bool)
    ensures
        r == boolean_result(op, a, b),
{
    match op {
        OperatorType::Equal => a == b,
        OperatorType::NotEqual => a != b,
        OperatorType::Or => a || b,
        OperatorType::And => a && b,
        OperatorType::GreaterThan => a && !b,
        OperatorType::GreaterThanOrEqual => a || !b,
        OperatorType::LessThan => !a && b,
        _ => !a || b,
    }
}

/* Input */

/// The value that an `input()` read gives: a double only as its text, for
/// the caller to read.
#[derive(Debug, Clone, PartialEq)]
pub enum InputValue {
    /// A value of no kind, for a type that is none of the five.
    Nothing,
    Boolean(bool),
    Integer(i64),
    DoubleText(String),
    Character(char),
    String(String),
}

/// The value that an `input()` read gives, with texts as sequences.
pub ghost enum InputView {
    Nothing,
    Boolean(bool),
    Integer(i64),
    DoubleText(Seq<char>),
    Character(char),
    String(Seq<char>),
}

impl View for InputValue {
    type V = InputView;

    open spec fn view(&self) -> InputView {
        match self {
            InputValue::Nothing => InputView::Nothing,
            InputValue::Boolean(b) => InputView::Boolean(*b),
            InputValue::Integer(i) => InputView::Integer(*i),
            InputValue::DoubleText(t) => InputView::DoubleText(t@),
            InputValue::Character(c) => InputView::Character(*c),
            InputValue::String(t) => InputView::String(t@),
        }
    }
}

/// The message of a read line that is not a value of the type `name`, for
/// the `input` at `line`:`pos`.
pub open spec fn input_error(name: Seq<char>, line: int, pos: int) -> Seq<char> {
    "Engine Interpreter: Execute Error -> Failed to convert from `String` to `"@ + name + "`, line "@
        + decimal_text(line as nat) + ":"@ + decimal_text(pos as nat) + "."@
}

/// What an `input() as t` gives for the line `text` that was read (its line
/// end cut off), at `line`:`pos`: a boolean is `true` or `false`, an
/// integer as `str::parse::<i64>` reads it, a character exactly one
/// character.
pub open spec fn input_rule(t: TokenType, text: Seq<char>, line: int, pos: int) -> Result<InputView, Seq<char>> {
    if t == TokenType::Bool {
        if text == "true"@ {
            Ok(InputView::Boolean(true))
        } else if text == "false"@ {
            Ok(InputView::Boolean(false))
        } else {
            Err(input_error("Bool"@, line, pos))
        }
    } else if t == TokenType::Int {
        match parse_i64_text(text) {
            Some(i) => Ok(InputView::Integer(i)),
            None => Err(input_error("Int"@, line, pos)),
        }
    } else if t == TokenType::Double {
        Ok(InputView::DoubleText(text))
    } else if t == TokenType::Char {
        if text.len() == 1 {
            Ok(InputView::Character(text[0]))
        } else {
            Err(input_error("Char"@, line, pos))
        }
    } else if t == TokenType::String {
        Ok(InputView::String(text))
    } else {
        Ok(InputView::Nothing)
    }
}

/// The message of a read line that is not a value of the type `name`.
pub fn input_error_text(name: &str, start_line: u64, start_pos: u64) -> (s: String)
    ensures
        s@ == input_error(name@, start_line as int, start_pos as int),
{
    let mut s = String::from_str("Engine Interpreter: Execute Error -> Failed to convert from `String` to `");
    s.append(name);
    s.append("`, line ");
    push_decimal(&mut s, start_line as u128);
    s.append(":");
    push_decimal(&mut s, start_pos as u128);
    s.append(".");
    s
}

/// Reads the line `text` as a value of the type `t` for the `input` at
/// `start_line`:`start_pos`.
pub fn input_value(t: TokenType, text: &str, start_line: u64, start_pos: u64) -> (r: Result<InputValue, String>)
    ensures
        match (r, input_rule(t, text@, start_line as int, start_pos as int)) {
            (Ok(v), Ok(w)) => v@ == w,
            (Err(e), Err(m)) => e@ == m,
            _ => false,
        },
{
    if t == TokenType::Bool {
        let line = String::from_str(text);
        if text_equals(&line, "true") {
            Ok(InputValue::Boolean(true))
        } else if text_equals(&line, "false") {
            Ok(InputValue::Boolean(false))
        } else {
            Err(input_error_text("Bool", start_line, start_pos))
        }
    } else if t == TokenType::Int {
        match parse_i64(text) {
            Some(i) => Ok(InputValue::Integer(i)),
            None => Err(input_error_text("Int", start_line, start_pos)),
        }
    } else if t == TokenType::Double {
        Ok(InputValue::DoubleText(String::from_str(text)))
    } else if t == TokenType::Char {
        if text.unicode_len() == 1 {
            Ok(InputValue::Character(text.get_char(0)))
        } else {
            Err(input_error_text("Char", start_line, start_pos))
        }
    } else if t == TokenType::String {
        Ok(InputValue::String(String::from_str(text)))
    } else {
        Ok(InputValue::Nothing)
    }
}

/* Assignments */

/// How an assignment `x op e` stores the value of `e`.
#[derive(Debug, Clone, Copy, PartialEq, Eq, Structural)]
pub enum AssignmentStep {
    /// `x` is new: it takes the value, with the type of its kind.
    Define,
    /// `=`: `x` takes the value, with the type of its kind.
    Replace,
    /// A string variable: the value, as a text, is joined to it.
    Append,
    /// A double variable: the operation on it and the value as a double.
    DoubleUpdate,
    /// An integer variable: the operation on it and the value as an integer.
    IntegerUpdate,
    /// Any other variable loses its type and value.
    Clear,
}

/// How `x op e` stores its value, where `exists` says whether `x` is a
/// variable in scope and `variable_type` is its type.
pub open spec fn assignment_rule(exists: bool, op: TokenType, variable_type: TokenType) -> AssignmentStep {
    if !exists {
        AssignmentStep::Define
    } else if op == TokenType::Assign {
        AssignmentStep::Replace
    } else if variable_type == TokenType::String {
        AssignmentStep::Append
    } else if variable_type == TokenType::Double {
        AssignmentStep::DoubleUpdate
    } else if variable_type == TokenType::Int {
        AssignmentStep::IntegerUpdate
    } else {
        AssignmentStep::Clear
    }
}

/// Decides how `x op e` stores its value.
pub fn assignment_step(exists: bool, op: TokenType, variable_type: TokenType) -> (r: AssignmentStep)
    ensures
        r == assignment_rule(exists, op, variable_type),
{
    if !exists {
        AssignmentStep::Define
    } else if op == TokenType::Assign {
        AssignmentStep::Replace
    } else if variable_type == TokenType::String {
        AssignmentStep::Append
    } else if variable_type == TokenType::Double {
        AssignmentStep::DoubleUpdate
    } else if variable_type == TokenType::Int {
        AssignmentStep::IntegerUpdate
    } else {
        AssignmentStep::Clear
    }
}

/// The type of a variable that takes a value of kind `k`: a character is
/// held as a string.
pub open spec fn kind_type(k: ValueKind) -> TokenType {
    match k {
        ValueKind::Boolean => TokenType::Bool,
        ValueKind::Integer => TokenType::Int,
        ValueKind::Double => TokenType::Double,
        ValueKind::Character => TokenType::String,
        ValueKind::String => TokenType::String,
    }
}

/// The type of a variable that takes a value of kind `k`.
pub fn type_of_kind(k: ValueKind) -> (t: TokenType)
    ensures
        t == kind_type(k),
{
    match k {
        ValueKind::Boolean => TokenType::Bool,
        ValueKind::Integer => TokenType::Int,
        ValueKind::Double => TokenType::Double,
        ValueKind::Character => TokenType::String,
        ValueKind::String => TokenType::String,
    }
}

/// What `x op= v` gives for an integer variable holding `a` and the
/// integer `b`, as Rust's `i64` operators compute it (`+=`, `-=`, `*=`,
/// `/=`, and `%` for any other); `None` where they overflow or divide by
/// zero, and the interpreter stops.
pub open spec fn integer_update_result(op: TokenType, a: i64, b: i64) -> Option<i64> {
    if op == TokenType::PlusEqual {
        a.checked_add(b)
    } else if op == TokenType::MinusEqual {
        a.checked_sub(b)
    } else if op == TokenType::MulEqual {
        a.checked_mul(b)
    } else if op == TokenType::DivEqual {
        a.checked_div(b)
    } else {
        a.checked_rem(b)
    }
}

/// Computes `x op= v` for an integer variable.
pub fn integer_update(op: TokenType, a: i64, b: i64) -> (r: Option<i64>)
    ensures
        r == integer_update_result(op, a, b),
{
    if op == TokenType::PlusEqual {
        a.checked_add(b)
    } else if op == TokenType::MinusEqual {
        a.checked_sub(b)
    } else if op == TokenType::MulEqual {
        a.checked_mul(b)
    } else if op == TokenType::DivEqual {
        a.checked_div(b)
    } else {
        a.checked_rem(b)
    }
}

/* `if` statements */

/// What an `if` statement does next.
#[derive(Debug, Clone, Copy, PartialEq, Eq, Structural)]
pub enum IfAction {
    /// Check the condition of the branch at this place (0 for the `if`,
    /// then each `else if`) and run its block if it holds.
    TryBranch(usize),
    /// Run the `else` block.
    RunElse,
    /// The statement is done.
    Finish,
}

/// A condition holds when its value is the boolean `true`.
pub open spec fn condition_holds(value: Option<bool>) -> bool {
    value == Some(true)
}

/// Whether a condition of value `value` holds.
pub fn holds(value: Option<bool>) -> (b: bool)
    ensures
        b == condition_holds(value),
{
    match value {
        Some(v) => v,
        None => false,
    }
}

/// What an `if` statement with `branches` conditions (the `if` and its
/// `else if` parts) and an `else` block or not does next, once `next`
/// conditions were tried and `taken` says whether one held: the first
/// holding condition runs its block and ends the statement; the `else`
/// block runs where none held.
pub open spec fn if_rule(taken: bool, next: int, branches: int, has_else: bool) -> IfAction {
    if taken {
        IfAction::Finish
    } else if next < branches {
        IfAction::TryBranch(next as usize)
    } else if has_else {
        IfAction::RunElse
    } else {
        IfAction::Finish
    }
}

/// Decides what an `if` statement does next.
pub fn if_step(taken: bool, next: usize, branches: usize, has_else: bool) -> (r: IfAction)
    ensures
        r == if_rule(taken, next as int, branches as int, has_else),
{
    if taken {
        IfAction::Finish
    } else if next < branches {
        IfAction::TryBranch(next)
    } else if has_else {
        IfAction::RunElse
    } else {
        IfAction::Finish
    }
}

/// An operand of a joining of texts: a character or a string.
#[derive(Debug, Clone, PartialEq)]
pub enum Text {
    Character(char),
    String(String),
}

impl View for Text {
    type V = Seq<char>;

    /// The characters of the operand: a character is a text of one.
    open spec fn view(&self) -> Seq<char> {
        match self {
            Text::Character(c) => seq![*c],
            Text::String(s) => s@,
        }
    }
}

/// The string of a `Concat` or `CharacterConcat` step: the left text
/// followed by the right one.
pub fn join_texts(left: &Text, right: &Text) -> (r: String)
    ensures
        r@ == left@ + right@,
{
    let mut s = String::new();
    match left {
        Text::Character(c) => push_char(&mut s, *c),
        Text::String(a) => s.append(a.as_str()),
    }
    assert(s@ =~= left@);
    let ghost first = s@;
    match right {
        Text::Character(c) => push_char(&mut s, *c),
        Text::String(b) => s.append(b.as_str()),
    }
    assert(s@ =~= first + right@);
    s
}

/* Laws of integer updates */

/// `n` as an `i64`, where it fits in one.
pub open spec fn fitting(n: int) -> Option<i64> {
    if i64::MIN <= n <= i64::MAX {
        Some(n as i64)
    } else {
        None
    }
}

/// `x += v`, `x -= v` and `x *= v` on an integer variable holding `a` give
/// `a + v`, `a - v` (the variable's value first) and `a * v` where that fits
/// in an `i64`, and nothing where it does not.
pub proof fn lemma_integer_update_arithmetic(a: i64, v: i64)
    ensures
        integer_update_result(TokenType::PlusEqual, a, v) == fitting(a + v),
        integer_update_result(TokenType::MinusEqual, a, v) == fitting(a - v),
        integer_update_result(TokenType::MulEqual, a, v) == fitting(a * v),
{
}

/// `x -= v` is undone by `x += v`, and `x += v` by `x -= v`.
pub proof fn lemma_integer_update_undone(a: i64, v: i64)
    ensures
        integer_update_result(TokenType::MinusEqual, a, v) matches Some(c) ==> integer_update_result(
            TokenType::PlusEqual,
            c,
            v,
        ) == Some(a),
        integer_update_result(TokenType::PlusEqual, a, v) matches Some(c) ==> integer_update_result(
            TokenType::MinusEqual,
            c,
            v,
        ) == Some(a),
{
}

/// `x /= v` and `x %= v` give nothing for a zero divisor; on a variable
/// holding `a >= 0` and `v > 0` they give the quotient and the remainder of
/// `a` by `v`, which recompose `a`.
pub proof fn lemma_integer_update_division(a: i64, v: i64)
    ensures
        v == 0 ==> integer_update_result(TokenType::DivEqual, a, v) is None,
        v == 0 ==> integer_update_result(TokenType::ModEqual, a, v) is None,
        0 <= a && 0 < v ==> integer_update_result(TokenType::DivEqual, a, v) == Some((a / v) as i64),
        0 <= a && 0 < v ==> integer_update_result(TokenType::ModEqual, a, v) == Some((a % v) as i64),
        0 <= a && 0 < v ==> (a / v) * v + a % v == a,
{
    if 0 <= a && 0 < v {
        assert((a / v) * v + a % v == a) by (nonlinear_arith)
            requires
                0 <= a,
                0 < v,
        ;
        assert(0 <= a / v <= a) by (nonlinear_arith)
            requires
                0 <= a,
                0 < v,
        ;
    }
}

/* Laws of booleans and of operand kinds */

/// `false` as 0, `true` as 1.
pub open spec fn bit(b: bool) -> int {
    if b {
        1
    } else {
        0
    }
}

/// On booleans, `&&` and `||` are conjunction and disjunction, `==` and
/// `!=` equality and its negation, and the comparisons order `false`
/// below `true`, the left operand first.
pub proof fn lemma_boolean_operations(a: bool, b: bool)
    ensures
        boolean_result(OperatorType::And, a, b) == (a && b),
        boolean_result(OperatorType::Or, a, b) == (a || b),
        boolean_result(OperatorType::Equal, a, b) == (a == b),
        boolean_result(OperatorType::NotEqual, a, b) == (a != b),
        boolean_result(OperatorType::LessThan, a, b) == (bit(a) < bit(b)),
        boolean_result(OperatorType::LessThanOrEqual, a, b) == (bit(a) <= bit(b)),
        boolean_result(OperatorType::GreaterThan, a, b) == (bit(a) > bit(b)),
        boolean_result(OperatorType::GreaterThanOrEqual, a, b) == (bit(a) >= bit(b)),
{
}

/// Two integers combine by integer arithmetic under `+`, `-`, `*` and `%`,
/// by division into a double under `/`, and by comparison otherwise; a
/// double on either side makes a double operation; two booleans make a
/// boolean operation; a string with a string or a character is joined, and
/// two characters are joined.
pub proof fn lemma_operand_kinds(op: OperatorType, k: ValueKind, line: int, pos: int)
    ensures
        (op == OperatorType::Plus || op == OperatorType::Minus || op == OperatorType::Mul || op == OperatorType::Mod)
            ==> evaluation_rule(op, Some(ValueKind::Integer), Some(ValueKind::Integer), line, pos) == Ok::<
            EvaluationStep,
            Seq<char>,
        >(EvaluationStep::IntegerArithmetic),
        evaluation_rule(OperatorType::Div, Some(ValueKind::Integer), Some(ValueKind::Integer), line, pos) == Ok::<
            EvaluationStep,
            Seq<char>,
        >(EvaluationStep::IntegerDivision),
        (op == OperatorType::Equal || op == OperatorType::NotEqual || op == OperatorType::LessThan || op
            == OperatorType::LessThanOrEqual || op == OperatorType::GreaterThan || op
            == OperatorType::GreaterThanOrEqual) ==> evaluation_rule(
            op,
            Some(ValueKind::Integer),
            Some(ValueKind::Integer),
            line,
            pos,
        ) == Ok::<EvaluationStep, Seq<char>>(EvaluationStep::IntegerComparison),
        (op == OperatorType::Plus || op == OperatorType::Minus || op == OperatorType::Mul || op == OperatorType::Div
            || op == OperatorType::Mod) ==> evaluation_rule(op, Some(ValueKind::Double), Some(k), line, pos)
            == Ok::<EvaluationStep, Seq<char>>(EvaluationStep::DoubleArithmetic) && evaluation_rule(
            op,
            Some(k),
            Some(ValueKind::Double),
            line,
            pos,
        ) == Ok::<EvaluationStep, Seq<char>>(EvaluationStep::DoubleArithmetic),
        evaluation_rule(op, Some(ValueKind::Boolean), Some(ValueKind::Boolean), line, pos) == Ok::<
            EvaluationStep,
            Seq<char>,
        >(EvaluationStep::BooleanOperation),
        evaluation_rule(op, Some(ValueKind::String), Some(ValueKind::String), line, pos) == Ok::<
            EvaluationStep,
            Seq<char>,
        >(EvaluationStep::Concat),
        evaluation_rule(op, Some(ValueKind::Character), Some(ValueKind::String), line, pos) == Ok::<
            EvaluationStep,
            Seq<char>,
        >(EvaluationStep::Concat),
        evaluation_rule(op, Some(ValueKind::Character), Some(ValueKind::Character), line, pos) == Ok::<
            EvaluationStep,
            Seq<char>,
        >(EvaluationStep::CharacterConcat),
{
}

} // verus!
