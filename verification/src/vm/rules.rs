use vstd::prelude::*;
use vstd::string::*;

use crate::text::{decimal_text, parse_i64, parse_i64_text, push_char, push_decimal};
use crate::vm::literals::{assign_char_value, assign_string_value, char_value, unescaped};
use crate::tokens::text_equals;
use crate::vm::tokens::TokenType;

verus! {

/* Messages */

/// The name of a type or operator of byte code, as messages print it.
pub open spec fn token_name(t: TokenType) -> Seq<char> {
    match t {
        TokenType::Bool => "Bool"@,
        TokenType::Int => "Int"@,
        TokenType::Double => "Double"@,
        TokenType::Char => "Char"@,
        TokenType::String => "String"@,
        TokenType::Equal => "Equal"@,
        TokenType::GreaterThanOrEqual => "GreaterThanOrEqual"@,
        TokenType::GreaterThan => "GreaterThan"@,
        TokenType::LessThanOrEqual => "LessThanOrEqual"@,
        TokenType::LessThan => "LessThan"@,
        TokenType::NotEqual => "NotEqual"@,
        TokenType::Plus => "Plus"@,
        TokenType::Minus => "Minus"@,
        TokenType::Mul => "Mul"@,
        TokenType::Div => "Div"@,
        TokenType::Mod => "Mod"@,
        TokenType::Or => "Or"@,
        TokenType::And => "And"@,
        TokenType::BadToken => "BadToken"@,
    }
}

/// The name of `t`, as messages print it.
pub fn token_name_string(t: TokenType) -> (s: String)
    ensures
        s@ == token_name(t),
{
    let name = match t {
        TokenType::Bool => "Bool",
        TokenType::Int => "Int",
        TokenType::Double => "Double",
        TokenType::Char => "Char",
        TokenType::String => "String",
        TokenType::Equal => "Equal",
        TokenType::GreaterThanOrEqual => "GreaterThanOrEqual",
        TokenType::GreaterThan => "GreaterThan",
        TokenType::LessThanOrEqual => "LessThanOrEqual",
        TokenType::LessThan => "LessThan",
        TokenType::NotEqual => "NotEqual",
        TokenType::Plus => "Plus",
        TokenType::Minus => "Minus",
        TokenType::Mul => "Mul",
        TokenType::Div => "Div",
        TokenType::Mod => "Mod",
        TokenType::Or => "Or",
        TokenType::And => "And",
        TokenType::BadToken => "BadToken",
    };
    String::from_str(name)
}

/// The message of an instruction of kind `kind` that fails for `reason`,
/// at the instruction numbered `instruction_line`, on line `line` of the
/// file.
pub open spec fn machine_error(kind: Seq<char>, reason: Seq<char>, instruction_line: int, line: int) -> Seq<char> {
    "Engine VM: "@ + kind + " Instruction -> "@ + reason + ", instruction line: "@ + decimal_text(
        instruction_line as nat,
    ) + ", line: "@ + decimal_text(line as nat) + "."@
}

/// The message of an instruction of kind `kind` that fails for `reason`.
pub fn machine_error_text(kind: &str, reason: &str, instruction_line: u128, line: u128) -> (s: String)
    ensures
        s@ == machine_error(kind@, reason@, instruction_line as int, line as int),
{
    let mut s = String::from_str("Engine VM: ");
    s.append(kind);
    s.append(" Instruction -> ");
    s.append(reason);
    s.append(", instruction line: ");
    push_decimal(&mut s, instruction_line);
    s.append(", line: ");
    push_decimal(&mut s, line);
    s.append(".");
    s
}

/// Why an instruction that names the variable `name` fails when no
/// variable has that name.
pub open spec fn undefined_reason(name: Seq<char>) -> Seq<char> {
    "Variable `"@ + name + "` is undefined"@
}

/// The message of an instruction of kind `kind` that names a variable that
/// is not defined.
pub fn undefined_variable_error(kind: &str, name: &str, instruction_line: u128, line: u128) -> (s: String)
    ensures
        s@ == machine_error(kind@, undefined_reason(name@), instruction_line as int, line as int),
{
    let mut reason = String::from_str("Variable `");
    reason.append(name);
    reason.append("` is undefined");
    machine_error_text(kind, reason.as_str(), instruction_line, line)
}

/* Operations */

/// What an `Operation` instruction computes once the types of its target
/// and operands pass.
#[derive(Debug, Clone, Copy, PartialEq, Eq, Structural)]
pub enum OperationStep {
    /// Nothing: the variables stay as they are.
    Keep,
    /// The two strings, joined.
    Concat,
    /// `Plus`, `Minus`, `Mul` or `Mod` of the two integers.
    IntArithmetic,
    /// `Plus`, `Minus`, `Mul`, `Mod` or `Div` of the two doubles.
    DoubleArithmetic,
    /// `And` or `Or` of the two booleans.
    Logic,
    /// The comparison of the two numbers, each taken as a double.
    Compare,
}

/// The reason of an operation refused for the type of its target.
pub open spec fn target_refused(op: TokenType, target: TokenType, left: TokenType, right: TokenType) -> Seq<char> {
    "Can't do operation `"@ + token_name(op) + "` to type `"@ + token_name(target) + "` and `"@ + token_name(left)
        + "` and `"@ + token_name(right) + "`"@
}

/// The reason of an operation refused for the types of its operands, where
/// the target is taken as `as_type`.
pub open spec fn operands_refused(op: TokenType, as_type: Seq<char>, left: TokenType, right: TokenType) -> Seq<
    char,
> {
    "Can't do operation `"@ + token_name(op) + "` to type "@ + as_type + " and `"@ + token_name(left) + "` and `"@
        + token_name(right) + "`"@
}

/// Integers and doubles.
pub open spec fn is_number(t: TokenType) -> bool {
    t == TokenType::Int || t == TokenType::Double
}

/// What an `Operation` instruction `op` does with a target of type
/// `target` and operands of types `left` and `right`: the step it
/// computes, or why it fails.
pub open spec fn operation_rule(op: TokenType, target: TokenType, left: TokenType, right: TokenType) -> Result<
    OperationStep,
    Seq<char>,
> {
    if op == TokenType::Plus || op == TokenType::Minus || op == TokenType::Mul || op == TokenType::Mod {
        let allowed = if op == TokenType::Plus {
            target == TokenType::String || is_number(target)
        } else {
            is_number(target)
        };
        if !allowed {
            Err(target_refused(op, target, left, right))
        } else if target == TokenType::String && op == TokenType::Plus {
            if left == TokenType::String && right == TokenType::String {
                Ok(OperationStep::Concat)
            } else {
                Err(operands_refused(op, "`String`"@, left, right))
            }
        } else if target == TokenType::Int {
            if left == TokenType::Int && right == TokenType::Int {
                Ok(OperationStep::IntArithmetic)
            } else {
                Err(operands_refused(op, "`Int`"@, left, right))
            }
        } else if target == TokenType::Double {
            if left == TokenType::Double && right == TokenType::Double {
                Ok(OperationStep::DoubleArithmetic)
            } else {
                Err(operands_refused(op, "`Double`"@, left, right))
            }
        } else {
            Ok(OperationStep::Keep)
        }
    } else if op == TokenType::Div {
        if target != TokenType::Double {
            Err(target_refused(op, target, left, right))
        } else if left != TokenType::Double || right != TokenType::Double {
            Err(operands_refused(op, "`Double`"@, left, right))
        } else {
            Ok(OperationStep::DoubleArithmetic)
        }
    } else if op == TokenType::And || op == TokenType::Or {
        if target != TokenType::Bool {
            Err(target_refused(op, target, left, right))
        } else if left != TokenType::Bool || right != TokenType::Bool {
            Err(operands_refused(op, "`Bool`"@, left, right))
        } else {
            Ok(OperationStep::Logic)
        }
    } else if op == TokenType::GreaterThan || op == TokenType::GreaterThanOrEqual || op == TokenType::LessThan
        || op == TokenType::LessThanOrEqual || op == TokenType::Equal || op == TokenType::NotEqual {
        if target != TokenType::Bool {
            Err(target_refused(op, target, left, right))
        } else if !is_number(left) || !is_number(right) {
            if op == TokenType::GreaterThan {
                Err(
                    "Can't do operation `GreaterThan` to type Bool and types `"@ + token_name(left) + "` and `"@
                        + token_name(right) + "`"@,
                )
            } else {
                Err(operands_refused(op, "`Bool`"@, left, right))
            }
        } else {
            Ok(OperationStep::Compare)
        }
    } else {
        Ok(OperationStep::Keep)
    }
}

/// The reason of an operation refused for the type of its target.
fn target_refused_text(op: TokenType, target: TokenType, left: TokenType, right: TokenType) -> (s: String)
    ensures
        s@ == target_refused(op, target, left, right),
{
    let mut s = String::from_str("Can't do operation `");
    s.append(token_name_string(op).as_str());
    s.append("` to type `");
    s.append(token_name_string(target).as_str());
    s.append("` and `");
    s.append(token_name_string(left).as_str());
    s.append("` and `");
    s.append(token_name_string(right).as_str());
    s.append("`");
    s
}

/// The reason of an operation refused for the types of its operands.
fn operands_refused_text(op: TokenType, as_type: &str, left: TokenType, right: TokenType) -> (s: String)
    ensures
        s@ == operands_refused(op, as_type@, left, right),
{
    let mut s = String::from_str("Can't do operation `");
    s.append(token_name_string(op).as_str());
    s.append("` to type ");
    s.append(as_type);
    s.append(" and `");
    s.append(token_name_string(left).as_str());
    s.append("` and `");
    s.append(token_name_string(right).as_str());
    s.append("`");
    s
}

/// Whether `t` is `Int` or `Double`.
fn number_type(t: TokenType) -> (b: bool)
    ensures
        b == is_number(t),
{
    t == TokenType::Int || t == TokenType::Double
}

/// Checks an `Operation` instruction `op` on a target of type `target` and
/// operands of types `left` and `right`, numbered `instruction_line` and on
/// line `line` of the file: the step to compute, or the message of the
/// failure.
pub fn operation_step(
    op: TokenType,
    target: TokenType,
    left: TokenType,
    right: TokenType,
    instruction_line: u128,
    line: u128,
) -> (r: Result<OperationStep, String>)
    ensures
        match (r, operation_rule(op, target, left, right)) {
            (Ok(s), Ok(t)) => s == t,
            (Err(e), Err(m)) => e@ == machine_error("Operation"@, m, instruction_line as int, line as int),
            _ => false,
        },
{
    let reason: String;
    if op == TokenType::Plus || op == TokenType::Minus || op == TokenType::Mul || op == TokenType::Mod {
        let allowed = if op == TokenType::Plus {
            target == TokenType::String || number_type(target)
        } else {
            number_type(target)
        };
        if !allowed {
            reason = target_refused_text(op, target, left, right);
        } else if target == TokenType::String && op == TokenType::Plus {
            if left == TokenType::String && right == TokenType::String {
                return Ok(OperationStep::Concat);
            }
            reason = operands_refused_text(op, "`String`", left, right);
        } else if target == TokenType::Int {
            if left == TokenType::Int && right == TokenType::Int {
                return Ok(OperationStep::IntArithmetic);
            }
            reason = operands_refused_text(op, "`Int`", left, right);
        } else if target == TokenType::Double {
            if left == TokenType::Double && right == TokenType::Double {
                return Ok(OperationStep::DoubleArithmetic);
            }
            reason = operands_refused_text(op, "`Double`", left, right);
        } else {
            return Ok(OperationStep::Keep);
        }
    } else if op == TokenType::Div {
        if target != TokenType::Double {
            reason = target_refused_text(op, target, left, right);
        } else if left != TokenType::Double || right != TokenType::Double {
            reason = operands_refused_text(op, "`Double`", left, right);
        } else {
            return Ok(OperationStep::DoubleArithmetic);
        }
    } else if op == TokenType::And || op == TokenType::Or {
        if target != TokenType::Bool {
            reason = target_refused_text(op, target, left, right);
        } else if left != TokenType::Bool || right != TokenType::Bool {
            reason = operands_refused_text(op, "`Bool`", left, right);
        } else {
            return Ok(OperationStep::Logic);
        }
    } else if op == TokenType::GreaterThan || op == TokenType::GreaterThanOrEqual || op == TokenType::LessThan
        || op == TokenType::LessThanOrEqual || op == TokenType::Equal || op == TokenType::NotEqual {
        if target != TokenType::Bool {
            reason = target_refused_text(op, target, left, right);
        } else if !number_type(left) || !number_type(right) {
            if op == TokenType::GreaterThan {
                let mut s = String::from_str("Can't do operation `GreaterThan` to type Bool and types `");
                s.append(token_name_string(left).as_str());
                s.append("` and `");
                s.append(token_name_string(right).as_str());
                s.append("`");
                reason = s;
            } else {
                reason = operands_refused_text(op, "`Bool`", left, right);
            }
        } else {
            return Ok(OperationStep::Compare);
        }
    } else {
        return Ok(OperationStep::Keep);
    }
    Err(machine_error_text("Operation", reason.as_str(), instruction_line, line))
}

/// What the integer operation `op` (`Plus`, `Minus`, `Mul`, and `Mod` for
/// any other) gives of `a` and `b`, as Rust's `i64` operators compute it;
/// `None` where they overflow or take the remainder by zero, and the
/// machine stops.
pub open spec fn integer_result(op: TokenType, a: i64, b: i64) -> Option<i64> {
    if op == TokenType::Plus {
        a.checked_add(b)
    } else if op == TokenType::Minus {
        a.checked_sub(b)
    } else if op == TokenType::Mul {
        a.checked_mul(b)
    } else {
        a.checked_rem(b)
    }
}

/// Computes the integer operation `op` of an `IntArithmetic` step.
pub fn integer_operation(op: TokenType, a: i64, b: i64) -> (r: Option<i64>)
    ensures
        r == integer_result(op, a, b),
{
    if op == TokenType::Plus {
        a.checked_add(b)
    } else if op == TokenType::Minus {
        a.checked_sub(b)
    } else if op == TokenType::Mul {
        a.checked_mul(b)
    } else {
        a.checked_rem(b)
    }
}

/* Values */

/// A value of the machine as the library holds it: booleans, integers,
/// characters and strings with their values; a double only by its kind.
#[derive(Debug, Clone, PartialEq)]
pub enum PlainValue {
    Boolean(bool),
    Integer(i64),
    Double,
    Character(char),
    String(String),
}

/// A value of the machine, with its strings as sequences.
pub ghost enum PlainView {
    Boolean(bool),
    Integer(i64),
    Double,
    Character(char),
    String(Seq<char>),
}

impl View for PlainValue {
    type V = PlainView;

    open spec fn view(&self) -> PlainView {
        match self {
            PlainValue::Boolean(b) => PlainView::Boolean(*b),
            PlainValue::Integer(i) => PlainView::Integer(*i),
            PlainValue::Double => PlainView::Double,
            PlainValue::Character(c) => PlainView::Character(*c),
            PlainValue::String(s) => PlainView::String(s@),
        }
    }
}

/// The string of a `Concat` step over two values: the left string followed
/// by the right one, where both are strings.
pub open spec fn concat_result(left: PlainView, right: PlainView) -> Option<Seq<char>> {
    match (left, right) {
        (PlainView::String(a), PlainView::String(b)) => Some(a + b),
        _ => None,
    }
}

/// Joins the two strings of a `Concat` step; `None` where either value is
/// not a string.
pub fn concat_values(left: &PlainValue, right: &PlainValue) -> (r: Option<String>)
    ensures
        match r {
            Some(s) => concat_result(left@, right@) == Some(s@),
            None => concat_result(left@, right@) is None,
        },
{
    match (left, right) {
        (PlainValue::String(a), PlainValue::String(b)) => {
            let mut s = a.clone();
            s.append(b.as_str());
            Some(s)
        },
        _ => None,
    }
}

/// The type of variable that holds a value of this kind.
pub open spec fn kind_of(v: PlainView) -> TokenType {
    match v {
        PlainView::Boolean(_) => TokenType::Bool,
        PlainView::Integer(_) => TokenType::Int,
        PlainView::Double => TokenType::Double,
        PlainView::Character(_) => TokenType::Char,
        PlainView::String(_) => TokenType::String,
    }
}

/// The value a `Convert` or `Assign` instruction stores: a value the
/// library computed, or a double for the caller to compute.
#[derive(Debug, Clone, PartialEq)]
pub enum Computed {
    /// The variables stay as they are.
    Keep,
    Boolean(bool),
    Integer(i64),
    /// The source's double, cut to an integer.
    IntegerOfDouble,
    /// The integer, as a double.
    DoubleOfInteger(i64),
    /// The source's double, as it is.
    SameDouble,
    /// The double that the text reads as.
    DoubleOfText(String),
    Character(char),
    String(String),
}

/// What a `Convert` or `Assign` instruction stores, with strings as
/// sequences.
pub ghost enum ComputedView {
    Keep,
    Boolean(bool),
    Integer(i64),
    IntegerOfDouble,
    DoubleOfInteger(i64),
    SameDouble,
    DoubleOfText(Seq<char>),
    Character(char),
    String(Seq<char>),
}

impl View for Computed {
    type V = ComputedView;

    open spec fn view(&self) -> ComputedView {
        match self {
            Computed::Keep => ComputedView::Keep,
            Computed::Boolean(b) => ComputedView::Boolean(*b),
            Computed::Integer(i) => ComputedView::Integer(*i),
            Computed::IntegerOfDouble => ComputedView::IntegerOfDouble,
            Computed::DoubleOfInteger(i) => ComputedView::DoubleOfInteger(*i),
            Computed::SameDouble => ComputedView::SameDouble,
            Computed::DoubleOfText(s) => ComputedView::DoubleOfText(s@),
            Computed::Character(c) => ComputedView::Character(*c),
            Computed::String(s) => ComputedView::String(s@),
        }
    }
}

/// The outcome `r` is the rule's: the same value, or the message of the
/// instruction of kind `kind` failing for the rule's reason.
pub open spec fn outcome_is(
    r: Result<Computed, String>,
    rule: Result<ComputedView, Seq<char>>,
    kind: Seq<char>,
    instruction_line: int,
    line: int,
) -> bool {
    match (r, rule) {
        (Ok(c), Ok(v)) => c@ == v,
        (Err(e), Err(m)) => e@ == machine_error(kind, m, instruction_line, line),
        _ => false,
    }
}

/* Conversions */

/// The text of an integer, with its sign, as `i64::to_string` writes it.
pub open spec fn integer_text(i: i64) -> Seq<char> {
    if i < 0 {
        "-"@ + decimal_text((-i) as nat)
    } else {
        decimal_text(i as nat)
    }
}

/// The text of a value, as `to_string` writes it: `double` is the text of a
/// double, which the library does not hold.
pub open spec fn shown_value(v: PlainView, double: Seq<char>) -> Seq<char> {
    match v {
        PlainView::Boolean(b) => if b {
            "true"@
        } else {
            "false"@
        },
        PlainView::Integer(i) => integer_text(i),
        PlainView::Double => double,
        PlainView::Character(c) => seq![c],
        PlainView::String(_) => Seq::empty(),
    }
}

/// The reason of a value that cannot be converted to `target_name`.
pub open spec fn cannot_convert(shown: Seq<char>, target_name: Seq<char>) -> Seq<char> {
    "Can't convert `"@ + shown + "` to `"@ + target_name + "`"@
}

/// The reason of a target variable of the wrong type.
pub open spec fn wrong_target(name: Seq<char>, types: Seq<char>) -> Seq<char> {
    "Variable `"@ + name + "` is not of type "@ + types
}

/// What a `Convert` instruction to `target` stores in the variable named
/// `to_name`, of type `to_type`, from the value `from` (`double` is the
/// text of that value where it is a double), or why it fails.
pub open spec fn convert_rule(
    target: TokenType,
    to_type: TokenType,
    to_name: Seq<char>,
    from: PlainView,
    double: Seq<char>,
) -> Result<ComputedView, Seq<char>> {
    if target == TokenType::Bool {
        if to_type != TokenType::Bool {
            Err("Can't convert type `"@ + token_name(to_type) + "` to `Bool`"@)
        } else {
            match from {
                PlainView::Boolean(b) => Ok(ComputedView::Boolean(b)),
                PlainView::String(s) => if s == "true"@ {
                    Ok(ComputedView::Boolean(true))
                } else if s == "false"@ {
                    Ok(ComputedView::Boolean(false))
                } else {
                    Err("Can't convert type `String` to type `Bool`"@)
                },
                _ => Err(cannot_convert(shown_value(from, double), "Bool"@)),
            }
        }
    } else if target == TokenType::Int {
        if !is_number(to_type) {
            Err(wrong_target(to_name, "`Int` or `Double`"@))
        } else {
            match from {
                PlainView::Integer(i) => Ok(ComputedView::Integer(i)),
                PlainView::Double => Ok(ComputedView::IntegerOfDouble),
                PlainView::String(s) => match parse_i64_text(s) {
                    Some(i) => Ok(ComputedView::Integer(i)),
                    None => Err("Can't convert type `String` to type `Int`"@),
                },
                _ => Err(cannot_convert(shown_value(from, double), "Int"@)),
            }
        }
    } else if target == TokenType::Double {
        if !is_number(to_type) {
            Err(wrong_target(to_name, "`Int` or `Double`"@))
        } else {
            match from {
                PlainView::Integer(i) => Ok(ComputedView::DoubleOfInteger(i)),
                PlainView::Double => Ok(ComputedView::SameDouble),
                PlainView::String(s) => Ok(ComputedView::DoubleOfText(s)),
                _ => Err(cannot_convert(shown_value(from, double), "Double"@)),
            }
        }
    } else if target == TokenType::Char {
        if to_type != TokenType::Char && to_type != TokenType::String {
            Err(wrong_target(to_name, "`Char` or `String`"@))
        } else {
            match from {
                PlainView::Character(c) => Ok(ComputedView::Character(c)),
                PlainView::String(s) => if s.len() > 0 {
                    Ok(ComputedView::Character(s[0]))
                } else {
                    Err("Can't convert type `String` to type `Char`"@)
                },
                _ => Err(cannot_convert(shown_value(from, double), "Char"@)),
            }
        }
    } else if target == TokenType::String {
        if kind_of(from) != TokenType::Char && kind_of(from) != TokenType::String {
            Err("Can't convert from type `"@ + token_name(kind_of(from)) + "` to `String`"@)
        } else if to_type != TokenType::Char && to_type != TokenType::String {
            Err(wrong_target(to_name, "`Char` or `String`"@))
        } else {
            match from {
                PlainView::Character(c) => Ok(ComputedView::String(seq![c])),
                PlainView::String(s) => Ok(ComputedView::String(s)),
                _ => Ok(ComputedView::Keep),
            }
        }
    } else if target == TokenType::BadToken {
        Err("Unknown Conversion type `BadToken`"@)
    } else {
        Ok(ComputedView::Keep)
    }
}

/// The text of an integer, as `i64::to_string` writes it.
fn integer_string(i: i64) -> (s: String)
    ensures
        s@ == integer_text(i),
{
    let mut s = String::new();
    if i < 0 {
        s.append("-");
        let m: i128 = i as i128;
        push_decimal(&mut s, (0 - m) as u128);
    } else {
        push_decimal(&mut s, i as u128);
    }
    s
}

/// The text of a value, as `to_string` writes it, with `double` for a
/// double.
fn shown_string(v: &PlainValue, double: &str) -> (s: String)
    ensures
        s@ == shown_value(v@, double@),
{
    match v {
        PlainValue::Boolean(b) => if *b {
            String::from_str("true")
        } else {
            String::from_str("false")
        },
        PlainValue::Integer(i) => integer_string(*i),
        PlainValue::Double => String::from_str(double),
        PlainValue::Character(c) => {
            let mut s = String::new();
            push_char(&mut s, *c);
            s
        },
        PlainValue::String(_) => String::new(),
    }
}

/// The reason of a value that cannot be converted to `target_name`.
fn cannot_convert_text(v: &PlainValue, double: &str, target_name: &str) -> (s: String)
    ensures
        s@ == cannot_convert(shown_value(v@, double@), target_name@),
{
    let mut s = String::from_str("Can't convert `");
    s.append(shown_string(v, double).as_str());
    s.append("` to `");
    s.append(target_name);
    s.append("`");
    s
}

/// The reason of a target variable of the wrong type.
fn wrong_target_text(name: &str, types: &str) -> (s: String)
    ensures
        s@ == wrong_target(name@, types@),
{
    let mut s = String::from_str("Variable `");
    s.append(name);
    s.append("` is not of type ");
    s.append(types);
    s
}

/// The type of variable that holds the value.
fn value_kind(v: &PlainValue) -> (t: TokenType)
    ensures
        t == kind_of(v@),
{
    match v {
        PlainValue::Boolean(_) => TokenType::Bool,
        PlainValue::Integer(_) => TokenType::Int,
        PlainValue::Double => TokenType::Double,
        PlainValue::Character(_) => TokenType::Char,
        PlainValue::String(_) => TokenType::String,
    }
}

/// Carries out the checks of a `Convert` instruction to `target`, into the
/// variable named `to_name` of type `to_type`, from the value `from`
/// (`double` is its text where it is a double), numbered
/// `instruction_line` and on line `line` of the file: the value to store,
/// or the message of the failure.
pub fn convert_value(
    target: TokenType,
    to_type: TokenType,
    to_name: &str,
    from: &PlainValue,
    double: &str,
    instruction_line: u128,
    line: u128,
) -> (r: Result<Computed, String>)
    ensures
        outcome_is(
            r,
            convert_rule(target, to_type, to_name@, from@, double@),
            "Convert"@,
            instruction_line as int,
            line as int,
        ),
{
    proof {
        reveal_strlit("true");
        reveal_strlit("false");
    }
    let reason: String;
    if target == TokenType::Bool {
        if to_type != TokenType::Bool {
            let mut s = String::from_str("Can't convert type `");
            s.append(token_name_string(to_type).as_str());
            s.append("` to `Bool`");
            reason = s;
        } else {
            match from {
                PlainValue::Boolean(b) => {
                    return Ok(Computed::Boolean(*b));
                },
                PlainValue::String(t) => {
                    if text_equals(t, "true") {
                        return Ok(Computed::Boolean(true));
                    } else if text_equals(t, "false") {
                        return Ok(Computed::Boolean(false));
                    }
                    reason = String::from_str("Can't convert type `String` to type `Bool`");
                },
                _ => {
                    reason = cannot_convert_text(from, double, "Bool");
                },
            }
        }
    } else if target == TokenType::Int || target == TokenType::Double {
        if to_type != TokenType::Int && to_type != TokenType::Double {
            reason = wrong_target_text(to_name, "`Int` or `Double`");
        } else {
            match from {
                PlainValue::Integer(i) => {
                    return Ok(
                        if target == TokenType::Int {
                            Computed::Integer(*i)
                        } else {
                            Computed::DoubleOfInteger(*i)
                        },
                    );
                },
                PlainValue::Double => {
                    return Ok(
                        if target == TokenType::Int {
                            Computed::IntegerOfDouble
                        } else {
                            Computed::SameDouble
                        },
                    );
                },
                PlainValue::String(t) => {
                    if target == TokenType::Double {
                        return Ok(Computed::DoubleOfText(t.clone()));
                    }
                    match parse_i64(t.as_str()) {
                        Some(i) => {
                            return Ok(Computed::Integer(i));
                        },
                        None => {
                            reason = String::from_str("Can't convert type `String` to type `Int`");
                        },
                    }
                },
                _ => {
                    reason = cannot_convert_text(
                        from,
                        double,
                        if target == TokenType::Int {
                            "Int"
                        } else {
                            "Double"
                        },
                    );
                },
            }
        }
    } else if target == TokenType::Char {
        if to_type != TokenType::Char && to_type != TokenType::String {
            reason = wrong_target_text(to_name, "`Char` or `String`");
        } else {
            match from {
                PlainValue::Character(c) => {
                    return Ok(Computed::Character(*c));
                },
                PlainValue::String(t) => {
                    if t.as_str().unicode_len() > 0 {
                        return Ok(Computed::Character(t.as_str().get_char(0)));
                    }
                    reason = String::from_str("Can't convert type `String` to type `Char`");
                },
                _ => {
                    reason = cannot_convert_text(from, double, "Char");
                },
            }
        }
    } else if target == TokenType::String {
        let kind = value_kind(from);
        if kind != TokenType::Char && kind != TokenType::String {
            let mut s = String::from_str("Can't convert from type `");
            s.append(token_name_string(kind).as_str());
            s.append("` to `String`");
            reason = s;
        } else if to_type != TokenType::Char && to_type != TokenType::String {
            reason = wrong_target_text(to_name, "`Char` or `String`");
        } else {
            match from {
                PlainValue::Character(c) => {
                    let mut s = String::new();
                    push_char(&mut s, *c);
                    assert(s@ =~= seq![*c]);
                    return Ok(Computed::String(s));
                },
                PlainValue::String(t) => {
                    return Ok(Computed::String(t.clone()));
                },
                _ => {
                    return Ok(Computed::Keep);
                },
            }
        }
    } else if target == TokenType::BadToken {
        reason = String::from_str("Unknown Conversion type `BadToken`");
    } else {
        return Ok(Computed::Keep);
    }
    Err(machine_error_text("Convert", reason.as_str(), instruction_line, line))
}

/* Assignments */

/// What an `Assign` instruction of type `assign_type` stores for the text
/// `value`, which takes `bytes` bytes in UTF-8 and which Rust's `Debug`
/// writes as `debug`, or why it fails.
pub open spec fn assign_rule(assign_type: TokenType, value: Seq<char>, bytes: int, debug: Seq<char>) -> Result<
    ComputedView,
    Seq<char>,
> {
    if assign_type == TokenType::Bool {
        if value == "True"@ {
            Ok(ComputedView::Boolean(true))
        } else if value == "False"@ {
            Ok(ComputedView::Boolean(false))
        } else {
            Err("Invalid Bool value `"@ + debug + "`"@)
        }
    } else if assign_type == TokenType::Int {
        match parse_i64_text(value) {
            Some(i) => Ok(ComputedView::Integer(i)),
            None => Err("Invalid Int value `"@ + debug + "`"@),
        }
    } else if assign_type == TokenType::Double {
        Ok(ComputedView::DoubleOfText(value))
    } else if assign_type == TokenType::Char {
        Ok(ComputedView::Character(char_value(value, bytes)))
    } else if assign_type == TokenType::String {
        if bytes >= 2 {
            Ok(ComputedView::String(unescaped(value.subrange(1, value.len() - 1))))
        } else {
            Err("Invalid String `"@ + debug + "`"@)
        }
    } else if assign_type == TokenType::BadToken {
        Err("Unknown Assign type `BadToken`"@)
    } else {
        Ok(ComputedView::Keep)
    }
}

/// The reason `what` about a value that Rust's `Debug` writes as `debug`.
fn invalid_text(what: &str, debug: &str) -> (s: String)
    ensures
        s@ == what@ + " `"@ + debug@ + "`"@,
{
    let mut s = String::from_str(what);
    s.append(" `");
    s.append(debug);
    s.append("`");
    s
}

/// Carries out an `Assign` instruction of type `assign_type` on the text
/// `value` (which Rust's `Debug` writes as `debug`), numbered
/// `instruction_line` and on line `line` of the file: the value to store,
/// or the message of the failure.
pub fn assign_value(assign_type: TokenType, value: &str, debug: &str, instruction_line: u128, line: u128) -> (r:
    Result<Computed, String>)
    requires
        value.spec_bytes().len() <= usize::MAX,
        assign_type == TokenType::Char && value.spec_bytes().len() >= 3 ==> value@.len() >= 2,
        assign_type == TokenType::String && value.spec_bytes().len() >= 2 ==> value@.len() >= 2 && (value@[0] as u32)
            < 128 && (value@.last() as u32) < 128,
    ensures
        outcome_is(
            r,
            assign_rule(assign_type, value@, value.spec_bytes().len() as int, debug@),
            "Assign"@,
            instruction_line as int,
            line as int,
        ),
{
    proof {
        reveal_strlit("True");
        reveal_strlit("False");
        reveal_strlit("Invalid Bool value");
        reveal_strlit("Invalid Int value");
        reveal_strlit("Invalid String");
        reveal_strlit(" `");
        reveal_strlit("Invalid Bool value `");
        reveal_strlit("Invalid Int value `");
        reveal_strlit("Invalid String `");
    }
    let reason: String;
    if assign_type == TokenType::Bool {
        let v = String::from_str(value);
        if text_equals(&v, "True") {
            return Ok(Computed::Boolean(true));
        } else if text_equals(&v, "False") {
            return Ok(Computed::Boolean(false));
        }
        reason = invalid_text("Invalid Bool value", debug);
        assert(reason@ =~= "Invalid Bool value `"@ + debug@ + "`"@);
    } else if assign_type == TokenType::Int {
        match parse_i64(value) {
            Some(i) => {
                return Ok(Computed::Integer(i));
            },
            None => {
                reason = invalid_text("Invalid Int value", debug);
        assert(reason@ =~= "Invalid Int value `"@ + debug@ + "`"@);
            },
        }
    } else if assign_type == TokenType::Double {
        return Ok(Computed::DoubleOfText(String::from_str(value)));
    } else if assign_type == TokenType::Char {
        return Ok(Computed::Character(assign_char_value(value)));
    } else if assign_type == TokenType::String {
        match assign_string_value(value) {
            Some(t) => {
                return Ok(Computed::String(t));
            },
            None => {
                reason = invalid_text("Invalid String", debug);
        assert(reason@ =~= "Invalid String `"@ + debug@ + "`"@);
            },
        }
    } else if assign_type == TokenType::BadToken {
        reason = String::from_str("Unknown Assign type `BadToken`");
    } else {
        return Ok(Computed::Keep);
    }
    Err(machine_error_text("Assign", reason.as_str(), instruction_line, line))
}

/* Laws of the rules */

/// `n` as an `i64`, where it fits in one.
pub open spec fn fits_i64(n: int) -> Option<i64> {
    if i64::MIN <= n <= i64::MAX {
        Some(n as i64)
    } else {
        None
    }
}

/// The integer `Plus`, `Minus` and `Mul` of the machine give `a + b`, `a - b`
/// (the left operand first) and `a * b` where that fits in an `i64`, and
/// nothing where it does not; `Mod` gives nothing for a zero divisor and the
/// remainder of `a` by `b` for `a >= 0` and `b > 0`.
pub proof fn lemma_integer_result_arithmetic(a: i64, b: i64)
    ensures
        integer_result(TokenType::Plus, a, b) == fits_i64(a + b),
        integer_result(TokenType::Minus, a, b) == fits_i64(a - b),
        integer_result(TokenType::Mul, a, b) == fits_i64(a * b),
        b == 0 ==> integer_result(TokenType::Mod, a, b) is None,
        0 <= a && 0 < b ==> integer_result(TokenType::Mod, a, b) == Some((a % b) as i64),
{
    if 0 <= a && 0 < b {
        assert(0 <= a % b <= a) by (nonlinear_arith)
            requires
                0 <= a,
                0 < b,
        ;
        assert(a == 0 ==> a % b == 0) by (nonlinear_arith)
            requires
                0 < b,
        ;
    }
}

/// A `Convert` to a value's own type, into a variable that can hold it,
/// keeps the value: a boolean, an integer, a character and a string stay as
/// they are, and a double stays the same double. The texts `true` and
/// `false` convert to the booleans they name.
pub proof fn lemma_convert_keeps_values(
    to_type: TokenType,
    to_name: Seq<char>,
    double: Seq<char>,
    b: bool,
    i: i64,
    c: char,
    s: Seq<char>,
)
    ensures
        convert_rule(TokenType::Bool, TokenType::Bool, to_name, PlainView::Boolean(b), double) == Ok::<ComputedView, Seq<char>>(
            ComputedView::Boolean(b),
        ),
        convert_rule(TokenType::Bool, TokenType::Bool, to_name, PlainView::String(seq!['t', 'r', 'u', 'e']), double)
            == Ok::<ComputedView, Seq<char>>(ComputedView::Boolean(true)),
        convert_rule(TokenType::Bool, TokenType::Bool, to_name, PlainView::String(seq!['f', 'a', 'l', 's', 'e']), double)
            == Ok::<ComputedView, Seq<char>>(ComputedView::Boolean(false)),
        is_number(to_type) ==> convert_rule(TokenType::Int, to_type, to_name, PlainView::Integer(i), double) == Ok::<ComputedView, Seq<char>>(
            ComputedView::Integer(i),
        ),
        is_number(to_type) ==> convert_rule(TokenType::Double, to_type, to_name, PlainView::Double, double) == Ok::<ComputedView, Seq<char>>(
            ComputedView::SameDouble,
        ),
        is_number(to_type) ==> convert_rule(TokenType::Double, to_type, to_name, PlainView::Integer(i), double)
            == Ok::<ComputedView, Seq<char>>(ComputedView::DoubleOfInteger(i)),
        to_type == TokenType::Char || to_type == TokenType::String ==> convert_rule(
            TokenType::Char,
            to_type,
            to_name,
            PlainView::Character(c),
            double,
        ) == Ok::<ComputedView, Seq<char>>(ComputedView::Character(c)),
        to_type == TokenType::Char || to_type == TokenType::String ==> convert_rule(
            TokenType::String,
            to_type,
            to_name,
            PlainView::String(s),
            double,
        ) == Ok::<ComputedView, Seq<char>>(ComputedView::String(s)),
{
    reveal_strlit("true");
    reveal_strlit("false");
    assert(seq!['t', 'r', 'u', 'e'] =~= "true"@);
    assert(seq!['f', 'a', 'l', 's', 'e'] =~= "false"@);
}

/// `Concat` gives the left string followed by the right one: the result
/// starts with the left string and goes on with the right one, and it fails
/// unless both values are strings.
pub proof fn lemma_concat_keeps_order(left: PlainView, right: PlainView)
    ensures
        concat_result(left, right) is Some <==> (left is String && right is String),
        (left, right) matches (PlainView::String(a), PlainView::String(b)) ==> ({
            let s = concat_result(left, right)->Some_0;
            &&& s.len() == a.len() + b.len()
            &&& s.subrange(0, a.len() as int) == a
            &&& s.subrange(a.len() as int, s.len() as int) == b
        }),
{
    if let (PlainView::String(a), PlainView::String(b)) = (left, right) {
        let s = a + b;
        assert(s.subrange(0, a.len() as int) =~= a);
        assert(s.subrange(a.len() as int, s.len() as int) =~= b);
    }
}

} // verus!
