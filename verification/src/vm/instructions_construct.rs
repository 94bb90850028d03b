use vstd::prelude::*;
use vstd::string::*;

use crate::text::{
    decimal_text, parse_u128, parse_u128_text, push_decimal, split_once_colon,
    split_once_colon_text, trim, trim_text,
};
use crate::tokens::text_equals;
use crate::vm::syntax_tree::{
    AssignInstruction, ConvertInstruction, ElseInstruction, GoToInstruction, IfInstruction,
    InputInstruction, Instruction, InstructionType, OperationInstruction, PrintInstruction,
};
use crate::vm::tokens::TokenType;

verus! {

/// What one line of byte code says, with its texts as sequences.
pub ghost enum DecodedInstruction {
    Assign { assign_type: TokenType, variable_name: Seq<char>, value: Seq<char> },
    Convert { convertion_type: TokenType, convert_to: Seq<char>, convert_from: Seq<char> },
    Input { variable_name: Seq<char> },
    Print { variable_name: Seq<char> },
    Operation {
        operation_type: TokenType,
        assign_to_variable: Seq<char>,
        left_variable: Seq<char>,
        right_variable: Seq<char>,
    },
    If { variable_name: Seq<char>, goto_line: u128 },
    Else,
    GoTo { goto_line: u128 },
    End,
}

/// The message of a line that cannot be decoded.
pub open spec fn construction_error(reason: Seq<char>, instruction_line: int, line: int) -> Seq<char> {
    "Engine VM: Instruction Construction -> "@ + reason + ", instruction line: "@ + decimal_text(
        instruction_line as nat,
    ) + ", line: "@ + decimal_text(line as nat) + "."@
}

/// The type that a type name of byte code names.
pub open spec fn type_token(name: Seq<char>) -> TokenType {
    if name == "bool"@ {
        TokenType::Bool
    } else if name == "int"@ {
        TokenType::Int
    } else if name == "double"@ {
        TokenType::Double
    } else if name == "char"@ {
        TokenType::Char
    } else if name == "string"@ {
        TokenType::String
    } else {
        TokenType::BadToken
    }
}

/// The operation that an operation name of byte code names.
pub open spec fn operation_token(name: Seq<char>) -> TokenType {
    if name == "Plus"@ {
        TokenType::Plus
    } else if name == "Minus"@ {
        TokenType::Minus
    } else if name == "Mul"@ {
        TokenType::Mul
    } else if name == "Div"@ {
        TokenType::Div
    } else if name == "Mod"@ {
        TokenType::Mod
    } else if name == "Or"@ {
        TokenType::Or
    } else if name == "And"@ {
        TokenType::And
    } else if name == "GreaterThan"@ {
        TokenType::GreaterThan
    } else if name == "GreaterThanOrEqual"@ {
        TokenType::GreaterThanOrEqual
    } else if name == "LessThan"@ {
        TokenType::LessThan
    } else if name == "LessThanOrEqual"@ {
        TokenType::LessThanOrEqual
    } else if name == "Equal"@ {
        TokenType::Equal
    } else if name == "NotEqual"@ {
        TokenType::NotEqual
    } else {
        TokenType::BadToken
    }
}

/// Decoding the fields of an `Assign` line numbered `n`.
pub open spec fn decode_assign(body: Seq<char>, n: u128, current_line: int) -> Result<
    DecodedInstruction,
    Seq<char>,
> {
    let invalid = construction_error("Invalid instruction"@, n as int, current_line);
    match split_once_colon(body) {
        None => Err(invalid),
        Some((ty, rest)) => match split_once_colon(rest) {
            None => Err(invalid),
            Some((variable, value)) => Ok(
                DecodedInstruction::Assign {
                    assign_type: type_token(ty),
                    variable_name: variable,
                    value: value,
                },
            ),
        },
    }
}

/// Decoding the fields of a `Convert` line numbered `n`.
pub open spec fn decode_convert(body: Seq<char>, n: u128, current_line: int) -> Result<
    DecodedInstruction,
    Seq<char>,
> {
    let invalid = construction_error("Invalid instruction"@, n as int, current_line);
    match split_once_colon(body) {
        None => Err(invalid),
        Some((ty, rest)) => match split_once_colon(rest) {
            None => Err(invalid),
            Some((to, from)) => Ok(
                DecodedInstruction::Convert {
                    convertion_type: type_token(ty),
                    convert_to: to,
                    convert_from: from,
                },
            ),
        },
    }
}

/// Decoding the fields of an `Operation` line numbered `n`.
pub open spec fn decode_operation(body: Seq<char>, n: u128, current_line: int) -> Result<
    DecodedInstruction,
    Seq<char>,
> {
    let invalid = construction_error("Invalid instruction"@, n as int, current_line);
    match split_once_colon(body) {
        None => Err(invalid),
        Some((op, rest)) => match split_once_colon(rest) {
            None => Err(invalid),
            Some((target, rest2)) => match split_once_colon(rest2) {
                None => Err(invalid),
                Some((left, right)) => Ok(
                    DecodedInstruction::Operation {
                        operation_type: operation_token(op),
                        assign_to_variable: target,
                        left_variable: left,
                        right_variable: right,
                    },
                ),
            },
        },
    }
}

/// The message for a jump target that is not a number.
pub open spec fn goto_error(current_line: int) -> Seq<char> {
    construction_error("GoTo line part is not an integer"@, current_line - 1, current_line)
}

/// Decoding the fields of an `If` line numbered `n`.
pub open spec fn decode_if(body: Seq<char>, n: u128, current_line: int) -> Result<
    DecodedInstruction,
    Seq<char>,
> {
    match split_once_colon(body) {
        None => Err(construction_error("Invalid instruction"@, n as int, current_line)),
        Some((variable, goto)) => match parse_u128_text(trim(goto)) {
            None => Err(goto_error(current_line)),
            Some(g) => Ok(DecodedInstruction::If { variable_name: variable, goto_line: g }),
        },
    }
}

/// Decoding the field of a `GoTo` line.
pub open spec fn decode_goto(body: Seq<char>, current_line: int) -> Result<
    DecodedInstruction,
    Seq<char>,
> {
    match parse_u128_text(trim(body)) {
        None => Err(goto_error(current_line)),
        Some(g) => Ok(DecodedInstruction::GoTo { goto_line: g }),
    }
}

/// Decoding what follows `name:` on a line numbered `n` (the file line is
/// `current_line`).
pub open spec fn decode_body(name: Seq<char>, body: Seq<char>, n: u128, current_line: int) -> Result<
    DecodedInstruction,
    Seq<char>,
> {
    if name == "Assign"@ {
        decode_assign(body, n, current_line)
    } else if name == "Convert"@ {
        decode_convert(body, n, current_line)
    } else if name == "Input"@ {
        Ok(DecodedInstruction::Input { variable_name: body })
    } else if name == "Print"@ {
        Ok(DecodedInstruction::Print { variable_name: body })
    } else if name == "Operation"@ {
        decode_operation(body, n, current_line)
    } else if name == "If"@ {
        decode_if(body, n, current_line)
    } else if name == "Else"@ {
        Ok(DecodedInstruction::Else)
    } else if name == "GoTo"@ {
        decode_goto(body, current_line)
    } else if name == "End"@ {
        Ok(DecodedInstruction::End)
    } else {
        Err(
            construction_error(
                "Unknown instruction `"@ + name + "`"@,
                n as int,
                current_line,
            ),
        )
    }
}

/// Decoding the byte-code line `line`, read as line `current_line` of its
/// file: `number:Name:fields`, the fields separated by `:`, the last field
/// taking the rest of the line. The result is the instruction and its number,
/// or the message that the virtual machine stops with.
pub open spec fn decode_instruction(line: Seq<char>, current_line: int) -> Result<
    (DecodedInstruction, u128),
    Seq<char>,
> {
    match split_once_colon(line) {
        None => Err(construction_error("Invalid instruction"@, current_line, current_line)),
        Some((counter, rest)) => match parse_u128_text(counter) {
            None => Err(
                construction_error("Line part is not an integer"@, current_line - 1, current_line),
            ),
            Some(n) => match split_once_colon(rest) {
                None => Err(construction_error("Invalid instruction"@, n as int, current_line)),
                Some((name, body)) => match decode_body(name, body, n, current_line) {
                    Ok(d) => Ok((d, n)),
                    Err(e) => Err(e),
                },
            },
        },
    }
}

/// The jump target of an `If` line's fields is a number, or the fields hold
/// no target.
pub open spec fn if_target_reads(body: Seq<char>) -> bool {
    match split_once_colon(body) {
        None => true,
        Some((_, goto)) => parse_u128_text(trim(goto)) is Some,
    }
}

/// Decoding the line reports the file line before the current one: its
/// line number, or the target of its `If` or `GoTo`, is no number.
pub open spec fn names_line_before(line: Seq<char>) -> bool {
    match split_once_colon(line) {
        None => false,
        Some((counter, rest)) => match parse_u128_text(counter) {
            None => true,
            Some(_) => match split_once_colon(rest) {
                None => false,
                Some((name, body)) => if name == "If"@ {
                    !if_target_reads(body)
                } else if name == "GoTo"@ {
                    parse_u128_text(trim(body)) is None
                } else {
                    false
                },
            },
        },
    }
}

/* Laws of the decoding */

/// The type of instruction that a decoded line describes.
pub open spec fn decoded_type(d: DecodedInstruction) -> InstructionType {
    match d {
        DecodedInstruction::Assign { .. } => InstructionType::Assign,
        DecodedInstruction::Convert { .. } => InstructionType::Convert,
        DecodedInstruction::Input { .. } => InstructionType::Input,
        DecodedInstruction::Print { .. } => InstructionType::Print,
        DecodedInstruction::Operation { .. } => InstructionType::Operation,
        DecodedInstruction::If { .. } => InstructionType::If,
        DecodedInstruction::Else => InstructionType::Else,
        DecodedInstruction::GoTo { .. } => InstructionType::GoTo,
        DecodedInstruction::End => InstructionType::End,
    }
}

/// The number that the part of `ins` of type `t` carries, if that part is
/// there (an `End` has no part).
pub open spec fn part_line(ins: Instruction, t: InstructionType) -> Option<u128> {
    match t {
        InstructionType::Assign => match ins.assign_instruction {
            Some(a) => a.line,
            None => None,
        },
        InstructionType::Convert => match ins.convert_instruction {
            Some(a) => a.line,
            None => None,
        },
        InstructionType::Operation => match ins.operation_instruction {
            Some(a) => a.line,
            None => None,
        },
        InstructionType::Print => match ins.print_instruction {
            Some(a) => a.line,
            None => None,
        },
        InstructionType::Input => match ins.input_instruction {
            Some(a) => a.line,
            None => None,
        },
        InstructionType::If => match ins.if_instruction {
            Some(a) => a.line,
            None => None,
        },
        InstructionType::Else => match ins.else_instruction {
            Some(a) => a.line,
            None => None,
        },
        InstructionType::GoTo => match ins.goto_instruction {
            Some(a) => a.line,
            None => None,
        },
        InstructionType::End => None,
    }
}

/// A decoded line `P:N:...` is numbered by `P`, its instruction has the
/// type that `N` names and only the part of that type, and that part
/// carries the number `P` (an `End` has no part).
pub proof fn lemma_decoded_structure(line: Seq<char>, current_line: int, ins: Instruction)
    requires
        decode_instruction(line, current_line) matches Ok((d, n)) && instruction_is(ins, d, n),
    ensures
        ({
            let (d, n) = decode_instruction(line, current_line)->Ok_0;
            &&& split_once_colon(line) matches Some((p, _)) && parse_u128_text(p) == Some(n)
            &&& only_type(ins, decoded_type(d))
            &&& decoded_type(d) != InstructionType::End ==> part_line(ins, decoded_type(d)) == Some(n)
            &&& decoded_type(d) == InstructionType::End ==> ins.assign_instruction is None
                && ins.convert_instruction is None && ins.operation_instruction is None
                && ins.print_instruction is None && ins.input_instruction is None && ins.if_instruction is None
                && ins.else_instruction is None && ins.goto_instruction is None
        }),
{
}

/// How many colons the text holds.
pub open spec fn colon_count(s: Seq<char>) -> nat
    decreases s.len(),
{
    if s.len() == 0 {
        0
    } else {
        (if s[0] == ':' {
            1nat
        } else {
            0nat
        }) + colon_count(s.drop_first())
    }
}

/// A text splits at a colon exactly when it holds one, and what follows the
/// first colon holds the others.
proof fn lemma_colon_count_split(s: Seq<char>)
    ensures
        split_once_colon(s) is None <==> colon_count(s) == 0,
        split_once_colon(s) matches Some((_, b)) ==> colon_count(s) == 1 + colon_count(b),
    decreases s.len(),
{
    if s.len() > 0 {
        lemma_colon_count_split(s.drop_first());
    }
}

/// The number, the name and the fields of a line `P:N:A`.
pub open spec fn line_parts(line: Seq<char>) -> (Seq<char>, Seq<char>, Seq<char>) {
    let (p, rest) = split_once_colon(line)->0;
    let (n, a) = split_once_colon(rest)->0;
    (p, n, a)
}

/// The names of the instructions.
pub open spec fn known_instruction(name: Seq<char>) -> bool {
    name == "Assign"@ || name == "Convert"@ || name == "Input"@ || name == "Print"@ || name == "Operation"@
        || name == "If"@ || name == "Else"@ || name == "GoTo"@ || name == "End"@
}

/// A line fails to decode exactly when it holds fewer than two colons, or,
/// written `P:N:A`, its number `P` is no `u128`, its name `N` is unknown,
/// an `Assign` or `Convert` has fewer than two fields after the first, an
/// `Operation` fewer than three, an `If` has no target or one that is no
/// number, or a `GoTo`'s target is no number.
pub proof fn lemma_decode_errors(line: Seq<char>, current_line: int)
    ensures
        decode_instruction(line, current_line) is Err <==> {
            ||| colon_count(line) < 2
            ||| {
                let (p, n, a) = line_parts(line);
                ||| parse_u128_text(p) is None
                ||| !known_instruction(n)
                ||| (n == "Assign"@ || n == "Convert"@) && colon_count(a) < 2
                ||| n == "Operation"@ && colon_count(a) < 3
                ||| n == "If"@ && (colon_count(a) < 1 || !if_target_reads(a))
                ||| n == "GoTo"@ && parse_u128_text(trim(a)) is None
            }
        },
{
    reveal_strlit("Assign");
    reveal_strlit("Convert");
    reveal_strlit("Input");
    reveal_strlit("Print");
    reveal_strlit("Operation");
    reveal_strlit("If");
    reveal_strlit("Else");
    reveal_strlit("GoTo");
    reveal_strlit("End");
    assert("Assign"@.len() == 6 && "Convert"@.len() == 7 && "Input"@.len() == 5 && "Print"@.len() == 5);
    assert("Operation"@.len() == 9 && "If"@.len() == 2 && "Else"@.len() == 4 && "GoTo"@.len() == 4);
    assert("End"@.len() == 3 && "GoTo"@[0] == 'G' && "Else"@[0] == 'E');
    assert("Input"@[0] == 'I' && "Print"@[0] == 'P');
    lemma_colon_count_split(line);
    if let Some((p, rest)) = split_once_colon(line) {
        lemma_colon_count_split(rest);
        if let Some((n, a)) = split_once_colon(rest) {
            lemma_colon_count_split(a);
            if let Some((x, b)) = split_once_colon(a) {
                lemma_colon_count_split(b);
                if let Some((y, c)) = split_once_colon(b) {
                    lemma_colon_count_split(c);
                }
            }
            if let Some(k) = parse_u128_text(p) {
                assert(line_parts(line) == (p, n, a));
                assert(decode_instruction(line, current_line) is Err <==> decode_body(n, a, k, current_line) is Err);
                if n == "Assign"@ {
                    assert(decode_body(n, a, k, current_line) == decode_assign(a, k, current_line));
                } else if n == "Convert"@ {
                    assert(decode_body(n, a, k, current_line) == decode_convert(a, k, current_line));
                } else if n == "Operation"@ {
                    assert(decode_body(n, a, k, current_line) == decode_operation(a, k, current_line));
                } else if n == "If"@ {
                    assert(decode_body(n, a, k, current_line) == decode_if(a, k, current_line));
                } else if n == "GoTo"@ {
                    assert(decode_body(n, a, k, current_line) == decode_goto(a, current_line));
                }
            }
        }
    }
}

/// The instruction with every part empty but its type.
pub open spec fn only_type(ins: Instruction, t: InstructionType) -> bool {
    &&& ins.instruction_type == Some(t)
    &&& (t != InstructionType::Assign ==> ins.assign_instruction is None)
    &&& (t != InstructionType::Convert ==> ins.convert_instruction is None)
    &&& (t != InstructionType::Operation ==> ins.operation_instruction is None)
    &&& (t != InstructionType::Print ==> ins.print_instruction is None)
    &&& (t != InstructionType::Input ==> ins.input_instruction is None)
    &&& (t != InstructionType::If ==> ins.if_instruction is None)
    &&& (t != InstructionType::Else ==> ins.else_instruction is None)
    &&& (t != InstructionType::GoTo ==> ins.goto_instruction is None)
}

/// `s` holds the text `t`.
pub open spec fn holds_text(s: Option<String>, t: Seq<char>) -> bool {
    s is Some && s->0@ == t
}

/// `ins` is the instruction that `d` describes, numbered `n`.
pub open spec fn instruction_is(ins: Instruction, d: DecodedInstruction, n: u128) -> bool {
    match d {
        DecodedInstruction::Assign { assign_type, variable_name, value } => {
            &&& only_type(ins, InstructionType::Assign)
            &&& ins.assign_instruction is Some
            &&& ins.assign_instruction->0.assign_type == Some(assign_type)
            &&& holds_text(ins.assign_instruction->0.variable_name, variable_name)
            &&& holds_text(ins.assign_instruction->0.value, value)
            &&& ins.assign_instruction->0.line == Some(n)
        },
        DecodedInstruction::Convert { convertion_type, convert_to, convert_from } => {
            &&& only_type(ins, InstructionType::Convert)
            &&& ins.convert_instruction is Some
            &&& ins.convert_instruction->0.convertion_type == Some(convertion_type)
            &&& holds_text(ins.convert_instruction->0.convert_to, convert_to)
            &&& holds_text(ins.convert_instruction->0.convert_from, convert_from)
            &&& ins.convert_instruction->0.line == Some(n)
        },
        DecodedInstruction::Input { variable_name } => {
            &&& only_type(ins, InstructionType::Input)
            &&& ins.input_instruction is Some
            &&& holds_text(ins.input_instruction->0.variable_name, variable_name)
            &&& ins.input_instruction->0.line == Some(n)
        },
        DecodedInstruction::Print { variable_name } => {
            &&& only_type(ins, InstructionType::Print)
            &&& ins.print_instruction is Some
            &&& holds_text(ins.print_instruction->0.variable_name, variable_name)
            &&& ins.print_instruction->0.line == Some(n)
        },
        DecodedInstruction::Operation {
            operation_type,
            assign_to_variable,
            left_variable,
            right_variable,
        } => {
            &&& only_type(ins, InstructionType::Operation)
            &&& ins.operation_instruction is Some
            &&& ins.operation_instruction->0.operation_type == Some(operation_type)
            &&& holds_text(ins.operation_instruction->0.assign_to_variable, assign_to_variable)
            &&& holds_text(ins.operation_instruction->0.left_variable, left_variable)
            &&& holds_text(ins.operation_instruction->0.right_variable, right_variable)
            &&& ins.operation_instruction->0.line == Some(n)
        },
        DecodedInstruction::If { variable_name, goto_line } => {
            &&& only_type(ins, InstructionType::If)
            &&& ins.if_instruction is Some
            &&& holds_text(ins.if_instruction->0.variable_name, variable_name)
            &&& ins.if_instruction->0.condition_fail_goto_line == Some(goto_line)
            &&& ins.if_instruction->0.line == Some(n)
        },
        DecodedInstruction::Else => {
            &&& only_type(ins, InstructionType::Else)
            &&& ins.else_instruction == Some(ElseInstruction { line: Some(n) })
        },
        DecodedInstruction::GoTo { goto_line } => {
            &&& only_type(ins, InstructionType::GoTo)
            &&& ins.goto_instruction == Some(
                GoToInstruction { goto_line: Some(goto_line), line: Some(n) },
            )
        },
        DecodedInstruction::End => only_type(ins, InstructionType::End),
    }
}

/// The message for `reason` at `instruction_line` of line `line`.
fn construction_error_text(reason: &str, instruction_line: u128, line: u128) -> (s: String)
    ensures
        s@ == construction_error(reason@, instruction_line as int, line as int),
{
    let mut s = String::from_str("Engine VM: Instruction Construction -> ");
    s.append(reason);
    s.append(", instruction line: ");
    push_decimal(&mut s, instruction_line);
    s.append(", line: ");
    push_decimal(&mut s, line);
    s.append(".");
    s
}

/// Splits `line` at its first `:`; a line without one is an invalid
/// instruction, reported at `instruction_line` (or at `current_line` where
/// that is not known yet).
fn split_line(line: String, current_line: u128, instruction_line: Option<u128>) -> (r: Result<
    (String, String),
    String,
>)
    ensures
        match (r, split_once_colon(line@)) {
            (Ok((a, b)), Some((x, y))) => a@ == x && b@ == y,
            (Err(e), None) => e@ == construction_error(
                "Invalid instruction"@,
                (match instruction_line {
                    Some(n) => n,
                    None => current_line,
                }) as int,
                current_line as int,
            ),
            _ => false,
        },
{
    match split_once_colon_text(line.as_str()) {
        Some(parts) => Ok(parts),
        None => {
            let il = match instruction_line {
                Some(n) => n,
                None => current_line,
            };
            Err(construction_error_text("Invalid instruction", il, current_line))
        },
    }
}

fn type_token_of(name: &String) -> (t: TokenType)
    ensures
        t == type_token(name@),
{
    if text_equals(name, "bool") {
        TokenType::Bool
    } else if text_equals(name, "int") {
        TokenType::Int
    } else if text_equals(name, "double") {
        TokenType::Double
    } else if text_equals(name, "char") {
        TokenType::Char
    } else if text_equals(name, "string") {
        TokenType::String
    } else {
        TokenType::BadToken
    }
}

fn operation_token_of(name: &String) -> (t: TokenType)
    ensures
        t == operation_token(name@),
{
    if text_equals(name, "Plus") {
        TokenType::Plus
    } else if text_equals(name, "Minus") {
        TokenType::Minus
    } else if text_equals(name, "Mul") {
        TokenType::Mul
    } else if text_equals(name, "Div") {
        TokenType::Div
    } else if text_equals(name, "Mod") {
        TokenType::Mod
    } else if text_equals(name, "Or") {
        TokenType::Or
    } else if text_equals(name, "And") {
        TokenType::And
    } else if text_equals(name, "GreaterThan") {
        TokenType::GreaterThan
    } else if text_equals(name, "GreaterThanOrEqual") {
        TokenType::GreaterThanOrEqual
    } else if text_equals(name, "LessThan") {
        TokenType::LessThan
    } else if text_equals(name, "LessThanOrEqual") {
        TokenType::LessThanOrEqual
    } else if text_equals(name, "Equal") {
        TokenType::Equal
    } else if text_equals(name, "NotEqual") {
        TokenType::NotEqual
    } else {
        TokenType::BadToken
    }
}

fn construct_assign_instruction(line: String, current_line: u128, instruction_line: u128) -> (r:
    Result<AssignInstruction, String>)
    ensures
        match (r, decode_assign(line@, instruction_line, current_line as int)) {
            (Ok(a), Ok(DecodedInstruction::Assign { assign_type, variable_name, value })) => {
                &&& a.assign_type == Some(assign_type)
                &&& holds_text(a.variable_name, variable_name)
                &&& holds_text(a.value, value)
                &&& a.line == Some(instruction_line)
            },
            (Err(e), Err(t)) => e@ == t,
            _ => false,
        },
{
    let (assign_type, line) = split_line(line, current_line, Some(instruction_line))?;
    let assign_token_type = type_token_of(&assign_type);
    let (variable_name, variable_value) = split_line(line, current_line, Some(instruction_line))?;
    Ok(
        AssignInstruction {
            line: Some(instruction_line),
            assign_type: Some(assign_token_type),
            variable_name: Some(variable_name),
            value: Some(variable_value),
        },
    )
}

fn construct_convert_instruction(line: String, current_line: u128, instruction_line: u128) -> (r:
    Result<ConvertInstruction, String>)
    ensures
        match (r, decode_convert(line@, instruction_line, current_line as int)) {
            (
                Ok(a),
                Ok(DecodedInstruction::Convert { convertion_type, convert_to, convert_from }),
            ) => {
                &&& a.convertion_type == Some(convertion_type)
                &&& holds_text(a.convert_to, convert_to)
                &&& holds_text(a.convert_from, convert_from)
                &&& a.line == Some(instruction_line)
            },
            (Err(e), Err(t)) => e@ == t,
            _ => false,
        },
{
    let (convert_type, line) = split_line(line, current_line, Some(instruction_line))?;
    let convert_token_type = type_token_of(&convert_type);
    let (convert_to_variable_name, convert_from_variable_name) = split_line(
        line,
        current_line,
        Some(instruction_line),
    )?;
    Ok(
        ConvertInstruction {
            line: Some(instruction_line),
            convertion_type: Some(convert_token_type),
            convert_to: Some(convert_to_variable_name),
            convert_from: Some(convert_from_variable_name),
        },
    )
}

fn construct_input_instruction(line: String, instruction_line: u128) -> (r: Result<
    InputInstruction,
    String,
>)
    ensures
        r matches Ok(a) && holds_text(a.variable_name, line@) && a.line == Some(instruction_line),
{
    Ok(InputInstruction { line: Some(instruction_line), variable_name: Some(line) })
}

fn construct_print_instruction(line: String, instruction_line: u128) -> (r: Result<
    PrintInstruction,
    String,
>)
    ensures
        r matches Ok(a) && holds_text(a.variable_name, line@) && a.line == Some(instruction_line),
{
    Ok(PrintInstruction { line: Some(instruction_line), variable_name: Some(line) })
}

fn construct_operation_instruction(line: String, current_line: u128, instruction_line: u128) -> (r:
    Result<OperationInstruction, String>)
    ensures
        match (r, decode_operation(line@, instruction_line, current_line as int)) {
            (
                Ok(a),
                Ok(
                    DecodedInstruction::Operation {
                        operation_type,
                        assign_to_variable,
                        left_variable,
                        right_variable,
                    },
                ),
            ) => {
                &&& a.operation_type == Some(operation_type)
                &&& holds_text(a.assign_to_variable, assign_to_variable)
                &&& holds_text(a.left_variable, left_variable)
                &&& holds_text(a.right_variable, right_variable)
                &&& a.line == Some(instruction_line)
            },
            (Err(e), Err(t)) => e@ == t,
            _ => false,
        },
{
    let (operation_name, line) = split_line(line, current_line, Some(instruction_line))?;
    let operation_token_type = operation_token_of(&operation_name);
    let (assign_to_variable, line) = split_line(line, current_line, Some(instruction_line))?;
    let (left_variable, right_variable) = split_line(line, current_line, Some(instruction_line))?;
    Ok(
        OperationInstruction {
            operation_type: Some(operation_token_type),
            assign_to_variable: Some(assign_to_variable),
            left_variable: Some(left_variable),
            right_variable: Some(right_variable),
            line: Some(instruction_line),
        },
    )
}

fn construct_if_instruction(line: String, current_line: u128, instruction_line: u128) -> (r: Result<
    IfInstruction,
    String,
>)
    requires
        current_line >= 1 || if_target_reads(line@),
    ensures
        match (r, decode_if(line@, instruction_line, current_line as int)) {
            (Ok(a), Ok(DecodedInstruction::If { variable_name, goto_line })) => {
                &&& holds_text(a.variable_name, variable_name)
                &&& a.condition_fail_goto_line == Some(goto_line)
                &&& a.line == Some(instruction_line)
            },
            (Err(e), Err(t)) => e@ == t,
            _ => false,
        },
{
    let (variable_name, goto_line) = split_line(line, current_line, Some(instruction_line))?;
    let goto_line = trim_text(goto_line.as_str());
    match parse_u128(goto_line.as_str()) {
        None => Err(
            construction_error_text(
                "GoTo line part is not an integer",
                current_line - 1,
                current_line,
            ),
        ),
        Some(goto_line) => Ok(
            IfInstruction {
                variable_name: Some(variable_name),
                condition_fail_goto_line: Some(goto_line),
                line: Some(instruction_line),
            },
        ),
    }
}

fn construct_else_instruction(instruction_line: u128) -> (r: Result<ElseInstruction, String>)
    ensures
        r == Ok::<ElseInstruction, String>(ElseInstruction { line: Some(instruction_line) }),
{
    Ok(ElseInstruction { line: Some(instruction_line) })
}

fn construct_goto_instruction(line: String, current_line: u128, instruction_line: u128) -> (r:
    Result<GoToInstruction, String>)
    requires
        current_line >= 1 || parse_u128_text(trim(line@)) is Some,
    ensures
        match (r, decode_goto(line@, current_line as int)) {
            (Ok(a), Ok(DecodedInstruction::GoTo { goto_line })) => a == GoToInstruction {
                goto_line: Some(goto_line),
                line: Some(instruction_line),
            },
            (Err(e), Err(t)) => e@ == t,
            _ => false,
        },
{
    let goto_line = trim_text(line.as_str());
    match parse_u128(goto_line.as_str()) {
        None => Err(
            construction_error_text(
                "GoTo line part is not an integer",
                current_line - 1,
                current_line,
            ),
        ),
        Some(goto_line) => Ok(GoToInstruction { goto_line: Some(goto_line), line: Some(instruction_line) }),
    }
}

/// An instruction with no parts, of type `t`.
fn bare_instruction(t: InstructionType) -> (ins: Instruction)
    ensures
        only_type(ins, t),
        ins.assign_instruction is None,
        ins.convert_instruction is None,
        ins.operation_instruction is None,
        ins.print_instruction is None,
        ins.input_instruction is None,
        ins.if_instruction is None,
        ins.else_instruction is None,
        ins.goto_instruction is None,
{
    Instruction {
        instruction_type: Some(t),
        assign_instruction: None,
        convert_instruction: None,
        operation_instruction: None,
        print_instruction: None,
        input_instruction: None,
        if_instruction: None,
        else_instruction: None,
        goto_instruction: None,
    }
}

/// Decodes the byte-code line `line`, read as line `current_line` of its
/// file, into the instruction it holds and that instruction's number (see
/// `decode_instruction`). At file line 0 no decoding may report the line
/// before it.
pub fn construct_instruction(line: String, current_line: u128) -> (r: Result<
    (Instruction, u128),
    String,
>)
    requires
        current_line >= 1 || !names_line_before(line@),
    ensures
        match (r, decode_instruction(line@, current_line as int)) {
            (Ok((ins, n)), Ok((d, m))) => n == m && instruction_is(ins, d, n),
            (Err(e), Err(t)) => e@ == t,
            _ => false,
        },
{
    let (line_counter, line) = split_line(line, current_line, None)?;
    let line_counter = match parse_u128(line_counter.as_str()) {
        Some(n) => n,
        None => {
            return Err(
                construction_error_text("Line part is not an integer", current_line - 1, current_line),
            );
        },
    };
    let (instruction_str, line) = split_line(line, current_line, Some(line_counter))?;
    if text_equals(&instruction_str, "Assign") {
        let node = construct_assign_instruction(line, current_line, line_counter)?;
        let mut ins = bare_instruction(InstructionType::Assign);
        ins.assign_instruction = Some(node);
        Ok((ins, line_counter))
    } else if text_equals(&instruction_str, "Convert") {
        let node = construct_convert_instruction(line, current_line, line_counter)?;
        let mut ins = bare_instruction(InstructionType::Convert);
        ins.convert_instruction = Some(node);
        Ok((ins, line_counter))
    } else if text_equals(&instruction_str, "Input") {
        let node = construct_input_instruction(line, line_counter)?;
        let mut ins = bare_instruction(InstructionType::Input);
        ins.input_instruction = Some(node);
        Ok((ins, line_counter))
    } else if text_equals(&instruction_str, "Print") {
        let node = construct_print_instruction(line, line_counter)?;
        let mut ins = bare_instruction(InstructionType::Print);
        ins.print_instruction = Some(node);
        Ok((ins, line_counter))
    } else if text_equals(&instruction_str, "Operation") {
        let node = construct_operation_instruction(line, current_line, line_counter)?;
        let mut ins = bare_instruction(InstructionType::Operation);
        ins.operation_instruction = Some(node);
        Ok((ins, line_counter))
    } else if text_equals(&instruction_str, "If") {
        let node = construct_if_instruction(line, current_line, line_counter)?;
        let mut ins = bare_instruction(InstructionType::If);
        ins.if_instruction = Some(node);
        Ok((ins, line_counter))
    } else if text_equals(&instruction_str, "Else") {
        let node = construct_else_instruction(line_counter)?;
        let mut ins = bare_instruction(InstructionType::Else);
        ins.else_instruction = Some(node);
        Ok((ins, line_counter))
    } else if text_equals(&instruction_str, "GoTo") {
        let node = construct_goto_instruction(line, current_line, line_counter)?;
        let mut ins = bare_instruction(InstructionType::GoTo);
        ins.goto_instruction = Some(node);
        Ok((ins, line_counter))
    } else if text_equals(&instruction_str, "End") {
        Ok((bare_instruction(InstructionType::End), line_counter))
    } else {
        let mut reason = String::from_str("Unknown instruction `");
        reason.append(instruction_str.as_str());
        reason.append("`");
        Err(construction_error_text(reason.as_str(), line_counter, current_line))
    }
}

} // verus!
