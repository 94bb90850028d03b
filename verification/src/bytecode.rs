use std::collections::VecDeque;

use vstd::prelude::*;
use vstd::string::*;

use crate::analyzer::{operator_name, operator_name_string, value_of};
use crate::constants::VERSION;
use crate::text::{is_white_space, parse_u128_text, split_once_colon, trim, trim_end, trim_start};
use crate::vm::instructions_construct::{decode_instruction, operation_token, type_token, DecodedInstruction};
use crate::vm::literals::{char_value, unescaped};
use crate::vm::rules::{assign_rule, ComputedView};
use crate::vm::tokens::TokenType as VmTokenType;
use crate::environments::{
    find_var, find_variable, is_named, Environment, EnvironmentScope, EnvironmentView, Variable,
    VariableView,
};
use crate::parser::{kind_name, kind_name_string};
use crate::environments::put_var;
use crate::analyzer::{token_of, tree_of};
use crate::syntax_tree::{
    block_ready, else_if_ready, else_ifs_ready, has_values, if_ready, statement_ready,
    DefineIfStatementNode, OperationNode, OperationNodeView, OperatorType, StatementNode,
    StatementType, StatementsNode,
};
use vstd::std_specs::vecdeque::VecDequeAdditionalSpecFns;
use crate::text::{decimal_text, push_char, push_decimal};
use crate::tokens::{Token, TokenType, TokenView};

verus! {

/* The state of the generator */

/// What the generator has written and where it stands: the lines of byte
/// code so far, the count of temporary variables, the number of the last
/// line, and the scopes of the variables.
pub ghost struct GenState {
    pub lines: Seq<Seq<char>>,
    pub counter: int,
    pub line: int,
    pub stack: Seq<EnvironmentView>,
}

/// A name in double quotes, as byte code writes variable names.
pub open spec fn q(s: Seq<char>) -> Seq<char> {
    "\""@ + s + "\""@
}

/// A new temporary variable: `temp_` and the count of temporaries so far.
pub open spec fn fresh(g: GenState) -> (GenState, Seq<char>) {
    let c = g.counter + 1;
    (GenState { lines: g.lines, counter: c, line: g.line, stack: g.stack }, temp_name(c as nat))
}

/// The name of the temporary variable numbered `n`.
pub open spec fn temp_name(n: nat) -> Seq<char> {
    "temp_"@ + decimal_text(n)
}

/// The state after the next line, numbered, with the instruction `body`.
pub open spec fn emit(g: GenState, body: Seq<char>) -> GenState {
    let l = g.line + 1;
    GenState {
        lines: g.lines.push(decimal_text(l as nat) + ":"@ + body),
        counter: g.counter,
        line: l,
        stack: g.stack,
    }
}

/// Each line starts with its own number, and the number of the last line
/// is the count of lines before it.
pub open spec fn numbered(g: GenState) -> bool {
    &&& g.lines.len() == g.line + 1
    &&& forall|i: int| 0 <= i < g.lines.len() ==> (decimal_text(i as nat) + ":"@).is_prefix_of(#[trigger] g.lines[i])
}

/// A line rewritten with its own number keeps the lines numbered.
proof fn lemma_rewrite_numbered(g: GenState, at: int, text: Seq<char>)
    requires
        numbered(g),
        0 <= at < g.lines.len(),
        (decimal_text(at as nat) + ":"@).is_prefix_of(text),
    ensures
        numbered(rewrite(g, at, text)),
{
    let e = rewrite(g, at, text);
    assert forall|i: int| 0 <= i < e.lines.len() implies (decimal_text(i as nat) + ":"@).is_prefix_of(
        #[trigger] e.lines[i],
    ) by {
        if i != at {
            assert(e.lines[i] == g.lines[i]);
        }
    }
}

/// `GoTo` lines rewritten with their own numbers keep the lines numbered.
proof fn lemma_patch_numbered(lines: Seq<Seq<char>>, gotos: Seq<(int, int)>, target: int)
    requires
        forall|i: int| 0 <= i < lines.len() ==> (decimal_text(i as nat) + ":"@).is_prefix_of(#[trigger] lines[i]),
        forall|k: int| 0 <= k < gotos.len() ==> 0 <= (#[trigger] gotos[k]).0 < lines.len() && gotos[k].0 == gotos[k].1,
    ensures
        patch_gotos(lines, gotos, target).len() == lines.len(),
        forall|i: int|
            0 <= i < lines.len() ==> (decimal_text(i as nat) + ":"@).is_prefix_of(
                #[trigger] patch_gotos(lines, gotos, target)[i],
            ),
    decreases gotos.len(),
{
    if gotos.len() > 0 {
        let at = gotos[0].0;
        let t = goto_text(gotos[0].1, target);
        let p = decimal_text(at as nat) + ":"@;
        reveal_strlit(":GoTo:");
        reveal_strlit(":");
        assert(t.subrange(0, p.len() as int) =~= p);
        let next = lines.update(at, t);
        assert forall|i: int| 0 <= i < next.len() implies (decimal_text(i as nat) + ":"@).is_prefix_of(
            #[trigger] next[i],
        ) by {
            if i != at {
                assert(next[i] == lines[i]);
            }
        }
        assert forall|k: int| 0 <= k < gotos.drop_first().len() implies 0 <= (
        #[trigger] gotos.drop_first()[k]).0 < next.len() && gotos.drop_first()[k].0 == gotos.drop_first()[k].1 by {
            assert(gotos.drop_first()[k] == gotos[k + 1]);
        }
        lemma_patch_numbered(next, gotos.drop_first(), target);
    }
}

/// The place, from 1 at the front, of the first scope that holds `name`.
pub open spec fn scope_index(stack: Seq<EnvironmentView>, name: Seq<char>) -> Option<int>
    decreases stack.len(),
{
    if stack.len() == 0 {
        None
    } else if find_var(stack[0].variables, name) is Some {
        Some(1)
    } else {
        match scope_index(stack.drop_first(), name) {
            Some(i) => Some(i + 1),
            None => None,
        }
    }
}

/// The byte-code name of the variable `name` of the scope at `index`:
/// `variable_` and the name for the outermost scope, and for the scope of an
/// `if` or `else` body the same behind `stack` and the scope's place.
pub open spec fn scoped_name(index: int, name: Seq<char>) -> Seq<char> {
    if index == 1 {
        "variable_"@ + name
    } else {
        "stack"@ + decimal_text(index as nat) + "_variable_"@ + name
    }
}

/// The message of a variable that no scope holds.
pub open spec fn missing_error(name: Seq<char>) -> Seq<char> {
    "Engine Compiler: Byte Code Generation Error -> Variable `"@ + name + "` not found."@
}

/* Literals */

/// A character of a character literal, escaped: line ends, tabs, quotes
/// and backslashes.
pub open spec fn char_escape(c: char) -> Seq<char> {
    if c == '\n' {
        seq!['\\', 'n']
    } else if c == '\'' {
        seq!['\\', '\'']
    } else if c == '\t' {
        seq!['\\', 't']
    } else if c == '\\' {
        seq!['\\', '\\']
    } else {
        seq![c]
    }
}

/// A character of a string literal, escaped: line ends, tabs, double
/// quotes and backslashes.
pub open spec fn string_escape(c: char) -> Seq<char> {
    if c == '\n' {
        seq!['\\', 'n']
    } else if c == '"' {
        seq!['\\', '"']
    } else if c == '\t' {
        seq!['\\', 't']
    } else if c == '\\' {
        seq!['\\', '\\']
    } else {
        seq![c]
    }
}

/// The text with each character escaped as `string` (string literals) or
/// not (character literals) says.
pub open spec fn escaped(s: Seq<char>, string: bool) -> Seq<char>
    decreases s.len(),
{
    if s.len() == 0 {
        Seq::empty()
    } else {
        escaped(s.drop_last(), string) + if string {
            string_escape(s.last())
        } else {
            char_escape(s.last())
        }
    }
}

/* Expressions */

/// The byte code of a leaf: a temporary holding a literal, or the variable
/// itself.
#[verifier::opaque]
pub open spec fn gen_leaf(g: GenState, t: TokenView) -> (GenState, Result<(Seq<char>, TokenType), Seq<char>>) {
    let kind = t.token_type;
    if kind == TokenType::True || kind == TokenType::False || kind == TokenType::IntNumber || kind
        == TokenType::DoubleNumber || kind == TokenType::Character || kind
        == TokenType::StringSequence {
        let (g1, tmp) = fresh(g);
        let body = if kind == TokenType::True {
            "Assign:bool:"@ + q(tmp) + ":True"@
        } else if kind == TokenType::False {
            "Assign:bool:"@ + q(tmp) + ":False"@
        } else if kind == TokenType::IntNumber {
            "Assign:int:"@ + q(tmp) + ":"@ + t.value
        } else if kind == TokenType::DoubleNumber {
            "Assign:double:"@ + q(tmp) + ":"@ + t.value
        } else if kind == TokenType::Character {
            "Assign:char:"@ + q(tmp) + ":'"@ + escaped(t.value, false) + "'"@
        } else {
            "Assign:string:"@ + q(tmp) + ":"@ + q(escaped(t.value, true))
        };
        (emit(g1, body), Ok((tmp, kind)))
    } else if kind == TokenType::Variable {
        match find_variable(g.stack, t.value) {
            None => (g, Err(missing_error(t.value))),
            Some(v) => {
                let vt = match v.variable_type {
                    Some(x) => x,
                    None => arbitrary(),
                };
                let index = match scope_index(g.stack, t.value) {
                    Some(i) => i,
                    None => arbitrary(),
                };
                let rt = if vt == TokenType::Int {
                    TokenType::IntNumber
                } else if vt == TokenType::Double {
                    TokenType::DoubleNumber
                } else if vt == TokenType::String {
                    TokenType::StringSequence
                } else if vt == TokenType::Char {
                    TokenType::Character
                } else {
                    TokenType::Bool
                };
                (g, Ok((scoped_name(index, t.value), rt)))
            },
        }
    } else {
        (
            g,
            Err(
                "Engine Compiler: Byte Code Generation Error -> Can't Generate File, line "@
                    + decimal_text(t.start_line as nat) + ":"@ + decimal_text(t.start_pos as nat),
            ),
        )
    }
}

/// A temporary converted from `from`: `Assign` of its zero, then
/// `Convert`.
pub open spec fn converted(g: GenState, ty: Seq<char>, zero: Seq<char>, from: Seq<char>) -> (GenState, Seq<char>) {
    let (g1, tmp) = fresh(g);
    let g2 = emit(g1, "Assign:"@ + ty + ":"@ + q(tmp) + ":"@ + zero);
    (emit(g2, "Convert:"@ + ty + ":"@ + q(tmp) + ":"@ + q(from)), tmp)
}

/// A temporary that holds the operation `op` of `a` and `b`.
pub open spec fn operated(g: GenState, ty: Seq<char>, zero: Seq<char>, op: Seq<char>, a: Seq<char>, b: Seq<char>) -> (
    GenState,
    Seq<char>,
) {
    let (g1, tmp) = fresh(g);
    let g2 = emit(g1, "Assign:"@ + ty + ":"@ + q(tmp) + ":"@ + zero);
    (emit(g2, "Operation:"@ + op + ":"@ + q(tmp) + ":"@ + q(a) + ":"@ + q(b)), tmp)
}

/// The byte-code type, its zero and the expression type of an input
/// converted to the type that the token kind `t` names.
pub open spec fn convert_target(t: TokenType) -> Option<(Seq<char>, Seq<char>, TokenType)> {
    if t == TokenType::Bool {
        Some(("bool"@, "False"@, TokenType::Bool))
    } else if t == TokenType::Int {
        Some(("int"@, "0"@, TokenType::IntNumber))
    } else if t == TokenType::Double {
        Some(("double"@, "0"@, TokenType::DoubleNumber))
    } else if t == TokenType::Char {
        Some(("char"@, "''"@, TokenType::Character))
    } else if t == TokenType::String {
        Some(("string"@, "\"\""@, TokenType::StringSequence))
    } else {
        None
    }
}

/// The operators that give a number.
pub open spec fn is_arithmetic(op: OperatorType) -> bool {
    op == OperatorType::Plus || op == OperatorType::Minus || op == OperatorType::Mul || op
        == OperatorType::Div || op == OperatorType::Mod
}

/// The byte code of the operation `op` of operands held in `ln` (of type
/// `lt`) and `rn` (of type `rt`); `n` is the operation's node.
#[verifier::opaque]
pub open spec fn gen_typed(
    g: GenState,
    op: OperatorType,
    ln: Seq<char>,
    lt: TokenType,
    rn: Seq<char>,
    rt: TokenType,
    n: OperationNodeView,
) -> (GenState, Result<(Seq<char>, TokenType), Seq<char>>) {
    let name = operator_name(op);
    if lt == TokenType::DoubleNumber || rt == TokenType::DoubleNumber {
        let (g1, first, second) = if lt == TokenType::IntNumber {
            let (g1, t) = converted(g, "double"@, "0"@, ln);
            (g1, t, rn)
        } else if rt == TokenType::IntNumber {
            let (g1, t) = converted(g, "double"@, "0"@, rn);
            (g1, ln, t)
        } else {
            (g, ln, rn)
        };
        if is_arithmetic(op) {
            let (g2, t) = operated(g1, "double"@, "0"@, name, first, second);
            (g2, Ok((t, TokenType::DoubleNumber)))
        } else {
            let (g2, t) = operated(g1, "bool"@, "False"@, name, first, second);
            (g2, Ok((t, TokenType::Bool)))
        }
    } else if lt == TokenType::IntNumber || rt == TokenType::IntNumber {
        if is_arithmetic(op) && op != OperatorType::Div {
            let (g1, t) = operated(g, "int"@, "0"@, name, ln, rn);
            (g1, Ok((t, TokenType::IntNumber)))
        } else if op == OperatorType::Div {
            let (g1, first) = converted(g, "double"@, "0"@, ln);
            let (g2, second) = converted(g1, "double"@, "0"@, rn);
            let (g3, t) = operated(g2, "double"@, "0"@, "Div"@, first, second);
            (g3, Ok((t, TokenType::DoubleNumber)))
        } else {
            let (g1, t) = operated(g, "bool"@, "False"@, name, ln, rn);
            (g1, Ok((t, TokenType::Bool)))
        }
    } else if lt == TokenType::StringSequence || rt == TokenType::StringSequence {
        if lt == TokenType::Character {
            let (g1, first) = converted(g, "string"@, "\"\""@, ln);
            let (g2, t) = operated(g1, "string"@, "\"\""@, "Plus"@, first, rn);
            (g2, Ok((t, TokenType::StringSequence)))
        } else if rt == TokenType::Character {
            let (g1, second) = converted(g, "string"@, "\"\""@, rn);
            let (g2, t) = operated(g1, "string"@, "\"\""@, "Plus"@, ln, second);
            (g2, Ok((t, TokenType::StringSequence)))
        } else {
            let (g1, t) = operated(g, "string"@, "\"\""@, "Plus"@, ln, rn);
            (g1, Ok((t, TokenType::StringSequence)))
        }
    } else if lt == TokenType::Character || rt == TokenType::Character {
        let (g1, first) = converted(g, "string"@, "\"\""@, ln);
        let (g2, second) = converted(g1, "string"@, "\"\""@, rn);
        let (g3, t) = operated(g2, "string"@, "\"\""@, "Plus"@, first, second);
        (g3, Ok((t, TokenType::StringSequence)))
    } else if lt == TokenType::Bool || lt == TokenType::True || lt == TokenType::False || rt
        == TokenType::Bool || rt == TokenType::True || rt == TokenType::False {
        let (g1, t) = operated(g, "bool"@, "False"@, name, ln, rn);
        (g1, Ok((t, TokenType::Bool)))
    } else {
        let v = value_of(n);
        (
            g,
            Err(
                "Engine Compiler: ByteCode Generation Error -> Unknown Operation "@ + v.value
                    + " for types "@ + kind_name(lt) + " and "@ + kind_name(rt) + ", line: "@
                    + decimal_text(v.start_line as nat) + ":"@ + decimal_text(v.start_pos as nat),
            ),
        )
    }
}

/// The byte code of an operation whose operands are held in `ln` and `rn`:
/// an input converted to a type, or an operation of typed operands.
#[verifier::opaque]
pub open spec fn gen_operation(
    g: GenState,
    op: OperatorType,
    ln: Seq<char>,
    lt: TokenType,
    rn: Seq<char>,
    rt: TokenType,
    n: OperationNodeView,
) -> (GenState, Result<(Seq<char>, TokenType), Seq<char>>) {
    if op == OperatorType::Convert {
        let (g1, read) = fresh(g);
        let g2 = emit(g1, "Assign:string:"@ + q(read) + ":"@ + "\"\""@);
        let g3 = emit(g2, "Input:"@ + q(read));
        let (g4, t) = fresh(g3);
        match convert_target(value_of(n).token_type) {
            Some((ty, zero, rtype)) => {
                let g5 = emit(g4, "Assign:"@ + ty + ":"@ + q(t) + ":"@ + zero);
                (emit(g5, "Convert:"@ + ty + ":"@ + q(t) + ":"@ + q(read)), Ok((t, rtype)))
            },
            None => gen_typed(g4, op, ln, lt, rn, rt, n),
        }
    } else {
        gen_typed(g, op, ln, lt, rn, rt, n)
    }
}

/// The byte code of an expression: the lines it adds, in the state it
/// leaves, and the variable that holds its value with the value's type, or
/// the error that stopped it.
pub open spec fn gen_expr(g: GenState, n: OperationNodeView) -> (GenState, Result<(Seq<char>, TokenType), Seq<char>>)
    decreases n,
{
    match n.operator {
        None => gen_leaf(g, value_of(n)),
        Some(op) => {
            let (g1, lres) = match n.left {
                Some(l) => gen_expr(g, *l),
                None => (g, Ok((Seq::empty(), TokenType::BadToken))),
            };
            match lres {
                Err(m) => (g1, Err(m)),
                Ok((ln, lt)) => {
                    let (g2, rres) = match n.right {
                        Some(r) => gen_expr(g1, *r),
                        None => (g1, Ok((Seq::empty(), TokenType::BadToken))),
                    };
                    match rres {
                        Err(m) => (g2, Err(m)),
                        Ok((rn, rt)) => if n.left is Some && n.right is None {
                            (g2, Ok((ln, lt)))
                        } else if n.right is Some && n.left is None {
                            (g2, Ok((rn, rt)))
                        } else {
                            gen_operation(g2, op, ln, lt, rn, rt, n)
                        },
                    }
                },
            }
        },
    }
}



/* Statements */

/// The scopes with `v` stored under its name: in the first scope that
/// holds the name, or else in the innermost one.
pub open spec fn stored(stack: Seq<EnvironmentView>, v: VariableView) -> Seq<EnvironmentView> {
    let name = match v.name {
        Some(n) => n,
        None => arbitrary(),
    };
    let i = match scope_index(stack, name) {
        Some(k) => k - 1,
        None => stack.len() - 1,
    };
    stack.update(i, EnvironmentView { scope: stack[i].scope, variables: put_var(stack[i].variables, v) })
}

/// The state with `v` stored in its scopes.
pub open spec fn gen_store(g: GenState, v: VariableView) -> GenState {
    GenState { lines: g.lines, counter: g.counter, line: g.line, stack: stored(g.stack, v) }
}

/// A new variable named `name` of type `t`.
pub open spec fn fresh_variable(name: Seq<char>, t: TokenType) -> VariableView {
    VariableView { variable_type: Some(t), name: Some(name), value: None, is_reasigned: false }
}

/// The byte code that defines the variable `name` as a `ty` that holds
/// what `from` holds: `Assign` of the zero, then `Convert`.
pub open spec fn gen_assign(g: GenState, name: Seq<char>, ty: Seq<char>, zero: Seq<char>, from: Seq<char>) -> (
    GenState,
    Option<Seq<char>>,
) {
    match scope_index(g.stack, name) {
        None => (g, Some(missing_error(name))),
        Some(i) => {
            let vn = scoped_name(i, name);
            let g1 = emit(g, "Assign:"@ + ty + ":"@ + q(vn) + ":"@ + zero);
            (emit(g1, "Convert:"@ + ty + ":"@ + q(vn) + ":"@ + q(from)), None)
        },
    }
}

/// The variable type, byte-code type and zero of a definition of kind
/// `kind`.
pub open spec fn definition_target(kind: StatementType) -> (TokenType, Seq<char>, Seq<char>) {
    match kind {
        StatementType::DefineBool => (TokenType::Bool, "bool"@, "False"@),
        StatementType::DefineInt => (TokenType::Int, "int"@, "0"@),
        StatementType::DefineDouble => (TokenType::Double, "double"@, "0"@),
        StatementType::DefineChar => (TokenType::Char, "char"@, "''"@),
        _ => (TokenType::String, "string"@, "\"\""@),
    }
}

/// The variable type, byte-code type and zero of a variable that takes a
/// value of type `t`, if any.
pub open spec fn inferred_target(t: TokenType) -> Option<(TokenType, Seq<char>, Seq<char>)> {
    if t == TokenType::IntNumber {
        Some((TokenType::Int, "int"@, "0"@))
    } else if t == TokenType::DoubleNumber {
        Some((TokenType::Double, "double"@, "0"@))
    } else if t == TokenType::StringSequence {
        Some((TokenType::String, "string"@, "\"\""@))
    } else if t == TokenType::Character {
        Some((TokenType::Char, "string"@, "\"\""@))
    } else if t == TokenType::Bool || t == TokenType::True || t == TokenType::False {
        Some((TokenType::Bool, "bool"@, "False"@))
    } else {
        None
    }
}

/// The byte code of `bool x = e` (or `int`, `double`, `char`, `string`):
/// the variable is stored first, then the expression is written.
pub open spec fn gen_definition(g: GenState, kind: StatementType, name: TokenView, left: OperationNodeView) -> (
    GenState,
    Option<Seq<char>>,
) {
    let (t, ty, zero) = definition_target(kind);
    let g1 = gen_store(g, fresh_variable(name.value, t));
    let (g2, r) = gen_expr(g1, left);
    match r {
        Err(m) => (g2, Some(m)),
        Ok((from, _)) => gen_assign(g2, name.value, ty, zero, from),
    }
}

/// The variable defined with the type of the value held in `from`.
pub open spec fn gen_inferred(g: GenState, name: Seq<char>, from: Seq<char>, t: TokenType) -> (
    GenState,
    Option<Seq<char>>,
) {
    match inferred_target(t) {
        None => (g, None),
        Some((vt, ty, zero)) => gen_assign(gen_store(g, fresh_variable(name, vt)), name, ty, zero, from),
    }
}

/// The byte code of `var x = e`.
pub open spec fn gen_var(g: GenState, name: TokenView, left: OperationNodeView) -> (GenState, Option<Seq<char>>) {
    let (g1, r) = gen_expr(g, left);
    match r {
        Err(m) => (g1, Some(m)),
        Ok((from, t)) => gen_inferred(g1, name.value, from, t),
    }
}

/// The byte-code operator of an assignment operator.
pub open spec fn compound_operator(op: TokenType) -> Seq<char> {
    if op == TokenType::PlusEqual {
        "Plus"@
    } else if op == TokenType::MinusEqual {
        "Minus"@
    } else if op == TokenType::MulEqual {
        "Mul"@
    } else if op == TokenType::DivEqual {
        "Div"@
    } else {
        "Mod"@
    }
}

/// The operation `vn = vn op from`.
pub open spec fn self_operation(g: GenState, op: Seq<char>, vn: Seq<char>, from: Seq<char>) -> GenState {
    emit(g, "Operation:"@ + op + ":"@ + q(vn) + ":"@ + q(vn) + ":"@ + q(from))
}

/// The conversion `vn = from` as a `ty`.
pub open spec fn self_convert(g: GenState, ty: Seq<char>, vn: Seq<char>, from: Seq<char>) -> GenState {
    emit(g, "Convert:"@ + ty + ":"@ + q(vn) + ":"@ + q(from))
}

/// The byte code of an assignment to a defined variable `vn` of type `vt`
/// of the value held in `from`, of type `t`.
pub open spec fn gen_update(g: GenState, vt: TokenType, vn: Seq<char>, op: TokenType, from: Seq<char>, t: TokenType) -> GenState {
    if vt == TokenType::Bool {
        self_convert(g, "bool"@, vn, from)
    } else if vt == TokenType::Int {
        let (g1, left) = if t == TokenType::DoubleNumber {
            converted(g, "int"@, "0"@, from)
        } else {
            (g, from)
        };
        if op == TokenType::PlusEqual || op == TokenType::MinusEqual || op == TokenType::MulEqual
            || op == TokenType::ModEqual {
            self_operation(g1, compound_operator(op), vn, left)
        } else if op == TokenType::DivEqual {
            let (g2, first) = converted(g1, "double"@, "0"@, left);
            let (g3, second) = converted(g2, "double"@, "0"@, vn);
            emit(g3, "Operation:Mod:"@ + q(vn) + ":"@ + q(second) + ":"@ + q(first))
        } else {
            self_convert(g1, "int"@, vn, left)
        }
    } else if vt == TokenType::Double {
        let (g1, left) = if t == TokenType::IntNumber {
            converted(g, "double"@, "0"@, from)
        } else {
            (g, from)
        };
        if op == TokenType::PlusEqual || op == TokenType::MinusEqual || op == TokenType::MulEqual
            || op == TokenType::DivEqual || op == TokenType::ModEqual {
            self_operation(g1, compound_operator(op), vn, left)
        } else {
            self_convert(g1, "double"@, vn, left)
        }
    } else if vt == TokenType::Char {
        self_convert(g, "char"@, vn, from)
    } else if vt == TokenType::String {
        let (g1, left) = if t == TokenType::Character {
            converted(g, "string"@, "\"\""@, from)
        } else {
            (g, from)
        };
        if op == TokenType::PlusEqual {
            self_operation(g1, "Plus"@, vn, left)
        } else {
            self_convert(g1, "string"@, vn, left)
        }
    } else {
        g
    }
}

/// The byte code of an assignment `x op e`: to the variable if one is in
/// scope, else a definition with the value's type.
pub open spec fn gen_assignment(g: GenState, name: TokenView, op: TokenView, left: OperationNodeView) -> (
    GenState,
    Option<Seq<char>>,
) {
    let (g1, r) = gen_expr(g, left);
    match r {
        Err(m) => (g1, Some(m)),
        Ok((from, t)) => match find_variable(g1.stack, name.value) {
            Some(v) => {
                let vt = match v.variable_type {
                    Some(x) => x,
                    None => arbitrary(),
                };
                let i = match scope_index(g1.stack, name.value) {
                    Some(k) => k,
                    None => arbitrary(),
                };
                (gen_update(g1, vt, scoped_name(i, name.value), op.token_type, from, t), None)
            },
            None => gen_inferred(g1, name.value, from, t),
        },
    }
}

/// The byte code of `print(x)`.
pub open spec fn gen_print(g: GenState, v: TokenView) -> (GenState, Option<Seq<char>>) {
    let (g1, r) = gen_leaf(g, v);
    match r {
        Err(m) => (g1, Some(m)),
        Ok((name, _)) => (emit(g1, "Print:"@ + q(name)), None),
    }
}


/* Blocks and `if` statements */

/// The text padded with spaces to 80 characters, so that a number written
/// later fits in its place.
pub open spec fn pad(s: Seq<char>) -> Seq<char> {
    if s.len() >= 80 {
        s
    } else {
        s + Seq::new((80 - s.len()) as nat, |i: int| ' ')
    }
}

/// The state with a new, empty, scope of an `if` block.
pub open spec fn push_scope(g: GenState) -> GenState {
    GenState {
        lines: g.lines,
        counter: g.counter,
        line: g.line,
        stack: g.stack.push(EnvironmentView { scope: EnvironmentScope::If, variables: Seq::empty() }),
    }
}

/// The state without its innermost scope.
pub open spec fn pop_scope(g: GenState) -> GenState {
    GenState { lines: g.lines, counter: g.counter, line: g.line, stack: g.stack.drop_last() }
}

/// The state with the line at `at` replaced by `text`.
pub open spec fn rewrite(g: GenState, at: int, text: Seq<char>) -> GenState {
    GenState { lines: g.lines.update(at, text), counter: g.counter, line: g.line, stack: g.stack }
}

/// The `If` line numbered `c.1` on the condition held in `c.2`, which goes
/// to line `target` when the condition fails.
pub open spec fn if_text(c: (int, int, Seq<char>), target: int) -> Seq<char> {
    decimal_text(c.1 as nat) + ":If:"@ + q(c.2) + ":"@ + pad(decimal_text(target as nat))
}

/// The `GoTo` line numbered `line` to line `target`.
pub open spec fn goto_text(line: int, target: int) -> Seq<char> {
    decimal_text(line as nat) + ":GoTo:"@ + pad(decimal_text(target as nat))
}

/// The lines with each of the `GoTo` lines at the places `gotos` going to
/// `target`.
pub open spec fn patch_gotos(lines: Seq<Seq<char>>, gotos: Seq<(int, int)>, target: int) -> Seq<Seq<char>>
    decreases gotos.len(),
{
    if gotos.len() == 0 {
        lines
    } else {
        patch_gotos(lines.update(gotos[0].0, goto_text(gotos[0].1, target)), gotos.drop_first(), target)
    }
}

/// The byte code of one statement.
pub open spec fn gen_statement(g: GenState, st: StatementNode) -> (GenState, Option<Seq<char>>)
    decreases st, 0int,
{
    match st.statement_type {
        Some(StatementType::DefineBool) => match st.define_bool_statement {
            Some(d) => gen_definition(g, StatementType::DefineBool, token_of(d.name), tree_of(d.left)),
            None => (g, None),
        },
        Some(StatementType::DefineInt) => match st.define_int_statement {
            Some(d) => gen_definition(g, StatementType::DefineInt, token_of(d.name), tree_of(d.left)),
            None => (g, None),
        },
        Some(StatementType::DefineDouble) => match st.define_double_statement {
            Some(d) => gen_definition(g, StatementType::DefineDouble, token_of(d.name), tree_of(d.left)),
            None => (g, None),
        },
        Some(StatementType::DefineChar) => match st.define_char_statement {
            Some(d) => gen_definition(g, StatementType::DefineChar, token_of(d.name), tree_of(d.left)),
            None => (g, None),
        },
        Some(StatementType::DefineString) => match st.define_string_statement {
            Some(d) => gen_definition(g, StatementType::DefineString, token_of(d.name), tree_of(d.left)),
            None => (g, None),
        },
        Some(StatementType::DefineVar) => match st.define_var_statement {
            Some(d) => gen_var(g, token_of(d.name), tree_of(d.left)),
            None => (g, None),
        },
        Some(StatementType::DefineVariable) => match st.define_variable_statement {
            Some(d) => gen_assignment(g, token_of(d.name), token_of(d.operator), tree_of(d.left)),
            None => (g, None),
        },
        Some(StatementType::Print) => match st.define_print_statement {
            Some(d) => gen_print(g, token_of(d.variable)),
            None => (g, None),
        },
        Some(StatementType::DefineIf) => match st.define_if_statement {
            Some(ifs) => gen_if(g, ifs),
            None => (g, None),
        },
        _ => (g, None),
    }
}

/// The byte code of the statements of a block from the `i`-th on, up to the
/// first error.
pub open spec fn gen_block(g: GenState, b: StatementsNode, i: int) -> (GenState, Option<Seq<char>>)
    decreases b, b.statements@.len() - i,
{
    if i < 0 || i >= b.statements@.len() {
        (g, None)
    } else {
        let (g1, e) = gen_statement(g, b.statements[i]);
        if e is Some {
            (g1, e)
        } else {
            gen_block(g1, b, i + 1)
        }
    }
}

/// The byte code of one condition and its block: the condition, an `If`
/// line to be given its target, the block in a scope of its own, and a
/// `GoTo` line to be given its target. The places of the two lines are
/// returned.
pub open spec fn gen_branch(g: GenState, condition: OperationNodeView, body: StatementsNode) -> (
    GenState,
    Option<Seq<char>>,
    (int, int, Seq<char>),
    (int, int),
)
    decreases body, body.statements@.len() + 1,
{
    let (g1, r) = gen_expr(g, condition);
    match r {
        Err(m) => (g1, Some(m), arbitrary(), arbitrary()),
        Ok((cname, _)) => {
            let g2 = push_scope(g1);
            let c = (g2.lines.len() as int, g2.line + 1, cname);
            let g3 = emit(g2, "If:"@ + q(cname) + ":"@ + pad("0"@));
            let (g4, e) = gen_block(g3, body, 0);
            if e is Some {
                (g4, e, c, arbitrary())
            } else {
                let jump = (g4.lines.len() as int, g4.line + 1);
                let g5 = emit(g4, "GoTo:"@ + pad("0"@));
                (pop_scope(g5), None, c, jump)
            }
        },
    }
}

/// The byte code of an `if` statement.
pub open spec fn gen_if(g: GenState, ifs: DefineIfStatementNode) -> (GenState, Option<Seq<char>>)
    decreases ifs, ifs.define_if_else_nodes@.len() + 2,
{
    match ifs.define_if_node {
        None => (g, None),
        Some(n) => {
            let (g1, e, c, jump) = gen_branch(g, tree_of(n.condition), n.statements);
            if e is Some {
                (g1, e)
            } else {
                gen_if_rest(g1, ifs, seq![c], seq![jump])
            }
        },
    }
}

/// The byte code of the `else if` and `else` parts of an `if` statement,
/// with the `If` and `GoTo` lines written so far given their targets.
pub open spec fn gen_if_rest(
    g: GenState,
    ifs: DefineIfStatementNode,
    conds: Seq<(int, int, Seq<char>)>,
    jumps: Seq<(int, int)>,
) -> (GenState, Option<Seq<char>>)
    decreases ifs, ifs.define_if_else_nodes@.len() + 1,
{
    let (g1, e, conds1, jumps1) = gen_else_ifs(g, ifs, 0, conds, jumps);
    if e is Some {
        (g1, e)
    } else {
        let last = conds1.last();
        match ifs.define_else_node {
            Some(en) => {
                let g2 = push_scope(g1);
                let g3 = rewrite(g2, last.0, if_text(last, g2.line + 1));
                let g4 = emit(g3, "Else:"@);
                let (g5, e5) = gen_block(g4, en.statements, 0);
                if e5 is Some {
                    (g5, e5)
                } else {
                    let g6 = pop_scope(g5);
                    (
                        GenState {
                            lines: patch_gotos(g6.lines, jumps1, g6.line + 1),
                            counter: g6.counter,
                            line: g6.line,
                            stack: g6.stack,
                        },
                        None,
                    )
                }
            },
            None => {
                let g2 = rewrite(g1, last.0, if_text(last, g1.line + 1));
                (
                    GenState {
                        lines: patch_gotos(g2.lines, jumps1, g2.line + 1),
                        counter: g2.counter,
                        line: g2.line,
                        stack: g2.stack,
                    },
                    None,
                )
            },
        }
    }
}

/// The byte code of the `else if` parts from the `j`-th on: each first
/// gives the `If` line before it its target.
pub open spec fn gen_else_ifs(
    g: GenState,
    ifs: DefineIfStatementNode,
    j: int,
    conds: Seq<(int, int, Seq<char>)>,
    jumps: Seq<(int, int)>,
) -> (GenState, Option<Seq<char>>, Seq<(int, int, Seq<char>)>, Seq<(int, int)>)
    decreases ifs, ifs.define_if_else_nodes@.len() - j,
{
    if j < 0 || j >= ifs.define_if_else_nodes@.len() {
        (g, None, conds, jumps)
    } else {
        let n = ifs.define_if_else_nodes[j];
        let last = conds.last();
        let g1 = rewrite(g, last.0, if_text(last, g.line + 1));
        let (g2, e, c, jump) = gen_branch(g1, tree_of(n.condition), n.statements);
        if e is Some {
            (g2, e, conds, jumps)
        } else {
            gen_else_ifs(g2, ifs, j + 1, conds.push(c), jumps.push(jump))
        }
    }
}


/// A bound on the temporaries (five times) and lines (eight times) that a
/// statement's byte code takes.
pub open spec fn statement_size(st: StatementNode) -> nat
    decreases st, 0int,
{
    match st.statement_type {
        Some(StatementType::DefineBool) => match st.define_bool_statement {
            Some(d) => node_count(tree_of(d.left)) + 1,
            None => 0,
        },
        Some(StatementType::DefineInt) => match st.define_int_statement {
            Some(d) => node_count(tree_of(d.left)) + 1,
            None => 0,
        },
        Some(StatementType::DefineDouble) => match st.define_double_statement {
            Some(d) => node_count(tree_of(d.left)) + 1,
            None => 0,
        },
        Some(StatementType::DefineChar) => match st.define_char_statement {
            Some(d) => node_count(tree_of(d.left)) + 1,
            None => 0,
        },
        Some(StatementType::DefineString) => match st.define_string_statement {
            Some(d) => node_count(tree_of(d.left)) + 1,
            None => 0,
        },
        Some(StatementType::DefineVar) => match st.define_var_statement {
            Some(d) => node_count(tree_of(d.left)) + 1,
            None => 0,
        },
        Some(StatementType::DefineVariable) => match st.define_variable_statement {
            Some(d) => node_count(tree_of(d.left)) + 1,
            None => 0,
        },
        Some(StatementType::Print) => 1,
        Some(StatementType::DefineIf) => match st.define_if_statement {
            Some(ifs) => if_size(ifs),
            None => 0,
        },
        _ => 0,
    }
}

/// The bound of the statements of a block from the `i`-th on.
pub open spec fn block_size(b: StatementsNode, i: int) -> nat
    decreases b, b.statements@.len() - i,
{
    if i < 0 || i >= b.statements@.len() {
        0
    } else {
        statement_size(b.statements[i]) + block_size(b, i + 1)
    }
}

/// The bound of a condition and its block.
pub open spec fn branch_size(condition: OperationNodeView, body: StatementsNode) -> nat
    decreases body, body.statements@.len() + 1,
{
    node_count(condition) + 1 + block_size(body, 0)
}

/// The bound of an `if` statement.
pub open spec fn if_size(ifs: DefineIfStatementNode) -> nat
    decreases ifs, ifs.define_if_else_nodes@.len() + 2,
{
    (match ifs.define_if_node {
        Some(n) => branch_size(tree_of(n.condition), n.statements),
        None => 0,
    }) + else_ifs_size(ifs, 0) + match ifs.define_else_node {
        Some(e) => 1 + block_size(e.statements, 0),
        None => 0,
    }
}

/// The bound of the `else if` parts from the `j`-th on.
pub open spec fn else_ifs_size(ifs: DefineIfStatementNode, j: int) -> nat
    decreases ifs, ifs.define_if_else_nodes@.len() - j,
{
    if j < 0 || j >= ifs.define_if_else_nodes@.len() {
        0
    } else {
        let n = ifs.define_if_else_nodes[j];
        branch_size(tree_of(n.condition), n.statements) + else_ifs_size(ifs, j + 1)
    }
}

/* The generator */

/// Writes byte code for a syntax tree, one numbered instruction a line.
pub struct ByteCodeGenerator {
    syntax_tree: StatementsNode,
    lines: Vec<String>,
    current_counter: u128,
    current_instruction_line: u128,
    environments_stack: VecDeque<Environment>,
}

impl ByteCodeGenerator {
    /// What the generator has written and where it stands.
    pub closed spec fn state(self) -> GenState {
        GenState {
            lines: self.lines@.map_values(|l: String| l@),
            counter: self.current_counter as int,
            line: self.current_instruction_line as int,
            stack: crate::analyzer::scopes(self.environments_stack@),
        }
    }

    /// The tree the generator writes byte code for.
    pub closed spec fn tree(self) -> StatementsNode {
        self.syntax_tree
    }

    /// A generator for `syntax_tree` that has written nothing, with one,
    /// empty, main scope.
    pub fn new(syntax_tree: StatementsNode) -> (r: Self)
        ensures
            r.tree() == syntax_tree,
            r.state() == (GenState {
                lines: Seq::empty(),
                counter: 0,
                line: 0,
                stack: seq![EnvironmentView { scope: EnvironmentScope::Main, variables: Seq::empty() }],
            }),
    {
        let mut environments_stack = VecDeque::new();
        environments_stack.push_back(Environment::new(EnvironmentScope::Main));
        let r = ByteCodeGenerator {
            syntax_tree,
            lines: Vec::new(),
            current_counter: 0,
            current_instruction_line: 0,
            environments_stack,
        };
        assert(r.state().lines =~= Seq::<Seq<char>>::empty());
        assert(r.state().stack =~= seq![
            EnvironmentView { scope: EnvironmentScope::Main, variables: Seq::empty() },
        ]);
        r
    }

    /// The lines written so far.
    pub fn lines(&self) -> (r: &Vec<String>)
        ensures
            r@.map_values(|l: String| l@) == self.state().lines,
    {
        &self.lines
    }

    /// A new temporary variable.
    fn generate_temp_variable_name(&mut self) -> (name: String)
        requires
            old(self).state().counter < u128::MAX,
        ensures
            (final(self).state(), name@) == fresh(old(self).state()),
            grows(old(self).state(), final(self).state(), 1, 0),
    {
        self.current_counter = self.current_counter + 1;
        let mut name = String::from_str("temp_");
        push_decimal(&mut name, self.current_counter);
        proof {
            let g = old(self).state();
            assert(self.state() =~= fresh(g).0);
        }
        name
    }

    /// Writes the next line, numbered, with the instruction `body`.
    fn write(&mut self, body: String)
        requires
            old(self).state().line < u128::MAX,
        ensures
            numbered(old(self).state()) ==> numbered(final(self).state()),
            final(self).state() == emit(old(self).state(), body@),
            grows(old(self).state(), final(self).state(), 0, 1),
    {
        self.current_instruction_line = self.current_instruction_line + 1;
        let mut line = String::new();
        push_decimal(&mut line, self.current_instruction_line);
        line.append(":");
        line.append(body.as_str());
        let ghost text = line@;
        self.lines.push(line);
        proof {
            let g = old(self).state();
            assert(self.state().lines =~= g.lines.push(text));
            assert(self.state() =~= emit(g, body@));
        }
    }

    /// The byte-code name of the variable `variable_name`.
    fn generate_variable_name(&self, variable_name: &String) -> (r: Result<String, String>)
        ensures
            match (r, scope_index(self.state().stack, variable_name@)) {
                (Ok(x), Some(i)) => x@ == scoped_name(i, variable_name@),
                (Err(e), None) => e@ == missing_error(variable_name@),
                _ => false,
            },
    {
        let ghost st = self.state().stack;
        assert(st.subrange(0, st.len() as int) =~= st);
        let mut i: usize = 0;
        while i < self.environments_stack.len()
            invariant
                i <= self.environments_stack@.len(),
                st == self.state().stack,
                st.len() == self.environments_stack@.len(),
                scope_index(st, variable_name@) == match scope_index(
                    st.subrange(i as int, st.len() as int),
                    variable_name@,
                ) {
                    Some(k) => Some(k + i),
                    None => None,
                },
            decreases self.environments_stack@.len() - i,
        {
            let ghost rest = st.subrange(i as int, st.len() as int);
            assert(rest[0] == st[i as int]);
            assert(st[i as int] == self.environments_stack@[i as int]@);
            if crate::analyzer::find_in_scope(&self.environments_stack[i], variable_name) {
                if i == 0 {
                    let mut name = String::from_str("variable_");
                    name.append(variable_name.as_str());
                    return Ok(name);
                }
                let mut name = String::from_str("stack");
                push_decimal(&mut name, (i + 1) as u128);
                name.append("_variable_");
                name.append(variable_name.as_str());
                return Ok(name);
            }
            assert(rest.drop_first() =~= st.subrange(i as int + 1, st.len() as int));
            i = i + 1;
        }
        let mut message = String::from_str("Engine Compiler: Byte Code Generation Error -> Variable `");
        message.append(variable_name.as_str());
        message.append("` not found.");
        Err(message)
    }

    /// The type of the variable `variable_name`.
    fn get_variable_type(&self, variable_name: &String) -> (r: Result<TokenType, String>)
        requires
            crate::environments::all_typed(self.state().stack),
        ensures
            match (r, find_variable(self.state().stack, variable_name@)) {
                (Ok(t), Some(v)) => v.variable_type == Some(t),
                (Err(e), None) => e@ == missing_error(variable_name@),
                _ => false,
            },
    {
        match crate::analyzer::find_variable_in(&self.environments_stack, variable_name) {
            Some(t) => Ok(t),
            None => {
                let mut message = String::from_str(
                    "Engine Compiler: Byte Code Generation Error -> Variable `",
                );
                message.append(variable_name.as_str());
                message.append("` not found.");
                Err(message)
            },
        }
    }
}


/// The generator is where `expected` says, and its outcome is the one
/// `expected` gives.
pub open spec fn gen_is(
    after: GenState,
    r: Result<(String, TokenType), String>,
    expected: (GenState, Result<(Seq<char>, TokenType), Seq<char>>),
) -> bool {
    &&& after == expected.0
    &&& match (r, expected.1) {
        (Ok((x, t)), Ok((y, u))) => x@ == y && t == u,
        (Err(e), Err(m)) => e@ == m,
        _ => false,
    }
}


/// The generator is where `expected` says, and its outcome is the one
/// `expected` gives.
pub open spec fn gen_done(after: GenState, r: Result<(), String>, expected: (GenState, Option<Seq<char>>)) -> bool {
    &&& after == expected.0
    &&& match (r, expected.1) {
        (Ok(()), None) => true,
        (Err(e), Some(m)) => e@ == m,
        _ => false,
    }
}

/// The generator grew by at most `temps` temporaries and `lines` lines;
/// its scopes may have changed.
pub open spec fn grows_lines(a: GenState, b: GenState, temps: int, lines: int) -> bool {
    &&& a.lines.len() <= b.lines.len()
    &&& a.counter <= b.counter <= a.counter + temps
    &&& a.line <= b.line <= a.line + lines
}

/// There is room for `temps` more temporaries and `lines` more lines.
pub open spec fn has_room(g: GenState, temps: int, lines: int) -> bool {
    &&& 0 <= g.counter
    &&& 0 <= g.line
    &&& g.counter + temps <= u128::MAX
    &&& g.line + lines <= u128::MAX
}

/// The generator only grows: lines are added, counts go up, and the scopes
/// stay.
pub open spec fn grows(a: GenState, b: GenState, temps: int, lines: int) -> bool {
    &&& a.stack == b.stack
    &&& a.lines.len() <= b.lines.len()
    &&& a.counter <= b.counter <= a.counter + temps
    &&& a.line <= b.line <= a.line + lines
}

/// A name in double quotes.
fn quote(s: &String) -> (r: String)
    ensures
        r@ == q(s@),
{
    let mut r = String::from_str("\"");
    r.append(s.as_str());
    r.append("\"");
    r
}

/// The text with each character escaped for a string literal (`string`)
/// or a character literal.
pub(crate) fn escape_text(s: &String, string: bool) -> (r: String)
    ensures
        r@ == escaped(s@, string),
{
    let mut r = String::new();
    let n = s.as_str().unicode_len();
    let mut i: usize = 0;
    assert(s@.take(0) =~= Seq::<char>::empty());
    while i < n
        invariant
            i <= n,
            n == s@.len(),
            r@ == escaped(s@.take(i as int), string),
        decreases n - i,
    {
        let c = s.as_str().get_char(i);
        if c == '\n' {
            push_char(&mut r, '\\');
            push_char(&mut r, 'n');
        } else if c == '\'' && !string {
            push_char(&mut r, '\\');
            push_char(&mut r, '\'');
        } else if c == '"' && string {
            push_char(&mut r, '\\');
            push_char(&mut r, '"');
        } else if c == '\t' {
            push_char(&mut r, '\\');
            push_char(&mut r, 't');
        } else if c == '\\' {
            push_char(&mut r, '\\');
            push_char(&mut r, '\\');
        } else {
            push_char(&mut r, c);
        }
        proof {
            let t = s@.take(i as int + 1);
            assert(t.drop_last() =~= s@.take(i as int));
            assert(t.last() == c);
            assert(r@ =~= escaped(t, string));
        }
        i = i + 1;
    }
    assert(s@.take(n as int) =~= s@);
    r
}

impl ByteCodeGenerator {
    /// A temporary converted from `from`: `Assign` of its zero, then
    /// `Convert`.
    fn convert_into(&mut self, ty: &str, zero: &str, from: &String) -> (tmp: String)
        requires
            has_room(old(self).state(), 1, 2),
        ensures
            numbered(old(self).state()) ==> numbered(final(self).state()),
            (final(self).state(), tmp@) == converted(old(self).state(), ty@, zero@, from@),
            grows(old(self).state(), final(self).state(), 1, 2),
    {
        let tmp = self.generate_temp_variable_name();
        let mut body = String::from_str("Assign:");
        body.append(ty);
        body.append(":");
        body.append(quote(&tmp).as_str());
        body.append(":");
        body.append(zero);
        self.write(body);
        let mut body = String::from_str("Convert:");
        body.append(ty);
        body.append(":");
        body.append(quote(&tmp).as_str());
        body.append(":");
        body.append(quote(from).as_str());
        self.write(body);
        tmp
    }

    /// A temporary that holds the operation `op` of `a` and `b`.
    fn operate_into(&mut self, ty: &str, zero: &str, op: &String, a: &String, b: &String) -> (tmp: String)
        requires
            has_room(old(self).state(), 1, 2),
        ensures
            numbered(old(self).state()) ==> numbered(final(self).state()),
            (final(self).state(), tmp@) == operated(old(self).state(), ty@, zero@, op@, a@, b@),
            grows(old(self).state(), final(self).state(), 1, 2),
    {
        let tmp = self.generate_temp_variable_name();
        let mut body = String::from_str("Assign:");
        body.append(ty);
        body.append(":");
        body.append(quote(&tmp).as_str());
        body.append(":");
        body.append(zero);
        self.write(body);
        let mut body = String::from_str("Operation:");
        body.append(op.as_str());
        body.append(":");
        body.append(quote(&tmp).as_str());
        body.append(":");
        body.append(quote(a).as_str());
        body.append(":");
        body.append(quote(b).as_str());
        self.write(body);
        tmp
    }

    /// The byte code of a leaf.
    fn generate_leaf(&mut self, t: &Token) -> (r: Result<(String, TokenType), String>)
        requires
            has_room(old(self).state(), 1, 1),
            crate::environments::all_typed(old(self).state().stack),
        ensures
            numbered(old(self).state()) ==> numbered(final(self).state()),
            gen_is(final(self).state(), r, gen_leaf(old(self).state(), t@)),
            grows(old(self).state(), final(self).state(), 1, 1),
    {
        proof {
            reveal(gen_leaf);
        }
        let kind = t.token_type;
        if kind == TokenType::True || kind == TokenType::False || kind == TokenType::IntNumber || kind
            == TokenType::DoubleNumber || kind == TokenType::Character || kind
            == TokenType::StringSequence {
            let tmp = self.generate_temp_variable_name();
            let body = if kind == TokenType::True {
                let mut b = String::from_str("Assign:bool:");
                b.append(quote(&tmp).as_str());
                b.append(":True");
                b
            } else if kind == TokenType::False {
                let mut b = String::from_str("Assign:bool:");
                b.append(quote(&tmp).as_str());
                b.append(":False");
                b
            } else if kind == TokenType::IntNumber {
                let mut b = String::from_str("Assign:int:");
                b.append(quote(&tmp).as_str());
                b.append(":");
                b.append(t.value.as_str());
                b
            } else if kind == TokenType::DoubleNumber {
                let mut b = String::from_str("Assign:double:");
                b.append(quote(&tmp).as_str());
                b.append(":");
                b.append(t.value.as_str());
                b
            } else if kind == TokenType::Character {
                let mut b = String::from_str("Assign:char:");
                b.append(quote(&tmp).as_str());
                b.append(":'");
                b.append(escape_text(&t.value, false).as_str());
                b.append("'");
                b
            } else {
                let mut b = String::from_str("Assign:string:");
                b.append(quote(&tmp).as_str());
                b.append(":");
                b.append(quote(&escape_text(&t.value, true)).as_str());
                b
            };
            self.write(body);
            Ok((tmp, kind))
        } else if kind == TokenType::Variable {
            let variable_type = match self.get_variable_type(&t.value) {
                Ok(x) => x,
                Err(e) => {
                    return Err(e);
                },
            };
            proof {
                lemma_found_has_index(self.state().stack, t.value@);
            }
            let variable_name = match self.generate_variable_name(&t.value) {
                Ok(x) => x,
                Err(e) => {
                    return Err(e);
                },
            };
            if variable_type == TokenType::Int {
                Ok((variable_name, TokenType::IntNumber))
            } else if variable_type == TokenType::Double {
                Ok((variable_name, TokenType::DoubleNumber))
            } else if variable_type == TokenType::String {
                Ok((variable_name, TokenType::StringSequence))
            } else if variable_type == TokenType::Char {
                Ok((variable_name, TokenType::Character))
            } else {
                Ok((variable_name, TokenType::Bool))
            }
        } else {
            let mut message = String::from_str(
                "Engine Compiler: Byte Code Generation Error -> Can't Generate File, line ",
            );
            push_decimal(&mut message, t.start_line as u128);
            message.append(":");
            push_decimal(&mut message, t.start_pos as u128);
            Err(message)
        }
    }
}

/// A name that a scope holds has a place among the scopes.
proof fn lemma_found_has_index(stack: Seq<EnvironmentView>, name: Seq<char>)
    ensures
        find_variable(stack, name) is Some <==> scope_index(stack, name) is Some,
    decreases stack.len(),
{
    if stack.len() > 0 {
        lemma_found_has_index(stack.drop_first(), name);
    }
}


impl ByteCodeGenerator {
    /// The byte code of the operation `operator` of operands of known types.
    fn generate_typed(
        &mut self,
        operator: OperatorType,
        left_variable_name: String,
        left_token_type: TokenType,
        right_variable_name: String,
        right_token_type: TokenType,
        operation_node: &OperationNode,
    ) -> (r: Result<(String, TokenType), String>)
        requires
            has_room(old(self).state(), 3, 6),
            has_values(operation_node@),
        ensures
            numbered(old(self).state()) ==> numbered(final(self).state()),
            gen_is(
                final(self).state(),
                r,
                gen_typed(
                    old(self).state(),
                    operator,
                    left_variable_name@,
                    left_token_type,
                    right_variable_name@,
                    right_token_type,
                    operation_node@,
                ),
            ),
            grows(old(self).state(), final(self).state(), 3, 6),
    {
        proof {
            reveal(gen_typed);
        }
        let name = operator_name_string(operator);
        let lt = left_token_type;
        let rt = right_token_type;
        if lt == TokenType::DoubleNumber || rt == TokenType::DoubleNumber {
            let mut first = left_variable_name;
            let mut second = right_variable_name;
            if lt == TokenType::IntNumber {
                first = self.convert_into("double", "0", &first);
            } else if rt == TokenType::IntNumber {
                second = self.convert_into("double", "0", &second);
            }
            if operator == OperatorType::Plus || operator == OperatorType::Minus || operator
                == OperatorType::Mul || operator == OperatorType::Div || operator
                == OperatorType::Mod {
                let t = self.operate_into("double", "0", &name, &first, &second);
                Ok((t, TokenType::DoubleNumber))
            } else {
                let t = self.operate_into("bool", "False", &name, &first, &second);
                Ok((t, TokenType::Bool))
            }
        } else if lt == TokenType::IntNumber || rt == TokenType::IntNumber {
            if operator == OperatorType::Plus || operator == OperatorType::Minus || operator
                == OperatorType::Mul || operator == OperatorType::Mod {
                let t = self.operate_into(
                    "int",
                    "0",
                    &name,
                    &left_variable_name,
                    &right_variable_name,
                );
                Ok((t, TokenType::IntNumber))
            } else if operator == OperatorType::Div {
                let first = self.convert_into("double", "0", &left_variable_name);
                let second = self.convert_into("double", "0", &right_variable_name);
                let div = String::from_str("Div");
                let t = self.operate_into("double", "0", &div, &first, &second);
                Ok((t, TokenType::DoubleNumber))
            } else {
                let t = self.operate_into(
                    "bool",
                    "False",
                    &name,
                    &left_variable_name,
                    &right_variable_name,
                );
                Ok((t, TokenType::Bool))
            }
        } else if lt == TokenType::StringSequence || rt == TokenType::StringSequence {
            let plus = String::from_str("Plus");
            if lt == TokenType::Character {
                let first = self.convert_into("string", "\"\"", &left_variable_name);
                let t = self.operate_into("string", "\"\"", &plus, &first, &right_variable_name);
                Ok((t, TokenType::StringSequence))
            } else if rt == TokenType::Character {
                let second = self.convert_into("string", "\"\"", &right_variable_name);
                let t = self.operate_into("string", "\"\"", &plus, &left_variable_name, &second);
                Ok((t, TokenType::StringSequence))
            } else {
                let t = self.operate_into(
                    "string",
                    "\"\"",
                    &plus,
                    &left_variable_name,
                    &right_variable_name,
                );
                Ok((t, TokenType::StringSequence))
            }
        } else if lt == TokenType::Character || rt == TokenType::Character {
            let plus = String::from_str("Plus");
            let first = self.convert_into("string", "\"\"", &left_variable_name);
            let second = self.convert_into("string", "\"\"", &right_variable_name);
            let t = self.operate_into("string", "\"\"", &plus, &first, &second);
            Ok((t, TokenType::StringSequence))
        } else if lt == TokenType::Bool || lt == TokenType::True || lt == TokenType::False || rt
            == TokenType::Bool || rt == TokenType::True || rt == TokenType::False {
            let t = self.operate_into(
                "bool",
                "False",
                &name,
                &left_variable_name,
                &right_variable_name,
            );
            Ok((t, TokenType::Bool))
        } else {
            let value = operation_node.value.as_ref().unwrap();
            let mut message = String::from_str(
                "Engine Compiler: ByteCode Generation Error -> Unknown Operation ",
            );
            message.append(value.value.as_str());
            message.append(" for types ");
            message.append(kind_name_string(lt).as_str());
            message.append(" and ");
            message.append(kind_name_string(rt).as_str());
            message.append(", line: ");
            push_decimal(&mut message, value.start_line as u128);
            message.append(":");
            push_decimal(&mut message, value.start_pos as u128);
            Err(message)
        }
    }

    /// The byte code of an operation: an input converted to a type, or an
    /// operation of typed operands.
    fn generate_operation(
        &mut self,
        operator: OperatorType,
        left_variable_name: String,
        left_token_type: TokenType,
        right_variable_name: String,
        right_token_type: TokenType,
        operation_node: &OperationNode,
    ) -> (r: Result<(String, TokenType), String>)
        requires
            has_room(old(self).state(), 5, 8),
            has_values(operation_node@),
        ensures
            numbered(old(self).state()) ==> numbered(final(self).state()),
            gen_is(
                final(self).state(),
                r,
                gen_operation(
                    old(self).state(),
                    operator,
                    left_variable_name@,
                    left_token_type,
                    right_variable_name@,
                    right_token_type,
                    operation_node@,
                ),
            ),
            grows(old(self).state(), final(self).state(), 5, 8),
    {
        proof {
            reveal(gen_operation);
        }
        if operator == OperatorType::Convert {
            let read = self.generate_temp_variable_name();
            let mut body = String::from_str("Assign:string:");
            body.append(quote(&read).as_str());
            body.append(":");
            body.append("\"\"");
            self.write(body);
            let mut body = String::from_str("Input:");
            body.append(quote(&read).as_str());
            self.write(body);
            let t = self.generate_temp_variable_name();
            let kind = operation_node.value.as_ref().unwrap().token_type;
            let target: Option<(&str, &str, TokenType)> = if kind == TokenType::Bool {
                Some(("bool", "False", TokenType::Bool))
            } else if kind == TokenType::Int {
                Some(("int", "0", TokenType::IntNumber))
            } else if kind == TokenType::Double {
                Some(("double", "0", TokenType::DoubleNumber))
            } else if kind == TokenType::Char {
                Some(("char", "''", TokenType::Character))
            } else if kind == TokenType::String {
                Some(("string", "\"\"", TokenType::StringSequence))
            } else {
                None
            };
            match target {
                Some((ty, zero, result_type)) => {
                    let mut body = String::from_str("Assign:");
                    body.append(ty);
                    body.append(":");
                    body.append(quote(&t).as_str());
                    body.append(":");
                    body.append(zero);
                    self.write(body);
                    let mut body = String::from_str("Convert:");
                    body.append(ty);
                    body.append(":");
                    body.append(quote(&t).as_str());
                    body.append(":");
                    body.append(quote(&read).as_str());
                    self.write(body);
                    Ok((t, result_type))
                },
                None => self.generate_typed(
                    operator,
                    left_variable_name,
                    left_token_type,
                    right_variable_name,
                    right_token_type,
                    operation_node,
                ),
            }
        } else {
            self.generate_typed(
                operator,
                left_variable_name,
                left_token_type,
                right_variable_name,
                right_token_type,
                operation_node,
            )
        }
    }

    /// The byte code of an expression: its lines are written, and the
    /// variable that holds its value is returned with the value's type.
    pub fn define_operation_node_variables(&mut self, operation_node: &OperationNode) -> (r: Result<
        (String, TokenType),
        String,
    >)
        requires
            has_values(operation_node@),
            crate::environments::all_typed(old(self).state().stack),
            has_room(
                old(self).state(),
                5 * node_count(operation_node@) as int,
                8 * node_count(operation_node@) as int,
            ),
        ensures
            numbered(old(self).state()) ==> numbered(final(self).state()),
            gen_is(final(self).state(), r, gen_expr(old(self).state(), operation_node@)),
            grows(
                old(self).state(),
                final(self).state(),
                5 * node_count(operation_node@) as int,
                8 * node_count(operation_node@) as int,
            ),
        decreases operation_node,
    {
        match &operation_node.operator {
            Some(operator) => {
                let operator = *operator;
                let mut left_variable_name = String::new();
                let mut left_token_type = TokenType::BadToken;
                let mut right_variable_name = String::new();
                let mut right_token_type = TokenType::BadToken;
                proof {
                    lemma_children_counted(operation_node@);
                }
                match &operation_node.left {
                    Some(l) => match self.define_operation_node_variables(&**l) {
                        Ok((name, t)) => {
                            left_variable_name = name;
                            left_token_type = t;
                        },
                        Err(e) => {
                            return Err(e);
                        },
                    },
                    None => {},
                }
                match &operation_node.right {
                    Some(x) => match self.define_operation_node_variables(&**x) {
                        Ok((name, t)) => {
                            right_variable_name = name;
                            right_token_type = t;
                        },
                        Err(e) => {
                            return Err(e);
                        },
                    },
                    None => {},
                }
                if operation_node.left.is_some() && operation_node.right.is_none() {
                    return Ok((left_variable_name, left_token_type));
                } else if operation_node.right.is_some() && operation_node.left.is_none() {
                    return Ok((right_variable_name, right_token_type));
                }
                self.generate_operation(
                    operator,
                    left_variable_name,
                    left_token_type,
                    right_variable_name,
                    right_token_type,
                    operation_node,
                )
            },
            None => self.generate_leaf(operation_node.value.as_ref().unwrap()),
        }
    }
}

/// A tree counts one node more than its children together, and its
/// children's nodes carry tokens.
pub(crate) proof fn lemma_children_counted(n: OperationNodeView)
    requires
        has_values(n),
    ensures
        node_count(n) >= 1,
        n.left matches Some(l) ==> has_values(*l) && node_count(*l) + 1 <= node_count(n),
        n.right matches Some(r) ==> has_values(*r) && node_count(*r) + 1 <= node_count(n),
        node_count(n) == 1 + (match n.left {
            Some(l) => node_count(*l),
            None => 0,
        }) + (match n.right {
            Some(r) => node_count(*r),
            None => 0,
        }),
{
}


/// Stores `variable` under `variable_name` in the scopes: in the first
/// scope that holds the name, or else in the innermost one.
pub(crate) fn store_variable(stack: &mut VecDeque<Environment>, variable_name: String, variable: Variable)
    requires
        old(stack)@.len() > 0,
        variable.name == Some(variable_name),
        variable.variable_type is Some,
        crate::environments::all_typed(crate::analyzer::scopes(old(stack)@)),
    ensures
        crate::analyzer::scopes(final(stack)@) == stored(crate::analyzer::scopes(old(stack)@), variable@),
        crate::environments::all_typed(crate::analyzer::scopes(final(stack)@)),
        final(stack)@.len() == old(stack)@.len(),
{
    let ghost st = crate::analyzer::scopes(stack@);
    proof {
        lemma_stored_typed(st, variable@);
    }
    assert(st.subrange(0, st.len() as int) =~= st);
    let mut i: usize = 0;
    while i < stack.len()
        invariant
            i <= stack@.len(),
            st == crate::analyzer::scopes(stack@),
            st == crate::analyzer::scopes(old(stack)@),
            st.len() == stack@.len(),
            crate::environments::all_typed(stored(st, variable@)),
            stored(st, variable@).len() == st.len(),
            variable.name == Some(variable_name),
            scope_index(st, variable_name@) == match scope_index(
                st.subrange(i as int, st.len() as int),
                variable_name@,
            ) {
                Some(k) => Some(k + i),
                None => None,
            },
        decreases stack@.len() - i,
    {
        let ghost rest = st.subrange(i as int, st.len() as int);
        assert(rest[0] == st[i as int]);
        assert(st[i as int] == stack@[i as int]@);
        if crate::analyzer::find_in_scope(&stack[i], &variable_name) {
            let mut env = stack.remove(i).unwrap();
            crate::analyzer::put_into(&mut env, variable);
            stack.insert(i, env);
            assert(crate::analyzer::scopes(stack@) =~= stored(st, variable@));
            return;
        }
        assert(rest.drop_first() =~= st.subrange(i as int + 1, st.len() as int));
        i = i + 1;
    }
    let mut env = stack.pop_back().unwrap();
    crate::analyzer::put_into(&mut env, variable);
    stack.push_back(env);
    assert(crate::analyzer::scopes(stack@) =~= stored(st, variable@));
}

impl ByteCodeGenerator {
    /// Stores `variable` under `variable_name`: in the first scope that
    /// holds the name, or else in the innermost one.
    fn insert_variable_into_environments_stack(&mut self, variable_name: String, variable: Variable)
        requires
            old(self).state().stack.len() > 0,
            variable.name == Some(variable_name),
            variable.variable_type is Some,
            crate::environments::all_typed(old(self).state().stack),
        ensures
            final(self).state() == gen_store(old(self).state(), variable@),
            crate::environments::all_typed(final(self).state().stack),
            final(self).state().stack.len() == old(self).state().stack.len(),
    {
        let ghost g = self.state();
        store_variable(&mut self.environments_stack, variable_name, variable);
        assert(self.state().lines =~= g.lines);
        assert(self.state() =~= gen_store(g, variable@));
    }

    /// Defines the variable `name` as a `ty` that holds what `from` holds.
    fn assign_variable(&mut self, name: &String, ty: &str, zero: &str, from: &String) -> (r: Result<(), String>)
        requires
            has_room(old(self).state(), 0, 2),
        ensures
            numbered(old(self).state()) ==> numbered(final(self).state()),
            gen_done(final(self).state(), r, gen_assign(old(self).state(), name@, ty@, zero@, from@)),
            grows(old(self).state(), final(self).state(), 0, 2),
    {
        let variable_name = match self.generate_variable_name(name) {
            Ok(x) => x,
            Err(e) => {
                return Err(e);
            },
        };
        let mut body = String::from_str("Assign:");
        body.append(ty);
        body.append(":");
        body.append(quote(&variable_name).as_str());
        body.append(":");
        body.append(zero);
        self.write(body);
        let mut body = String::from_str("Convert:");
        body.append(ty);
        body.append(":");
        body.append(quote(&variable_name).as_str());
        body.append(":");
        body.append(quote(from).as_str());
        self.write(body);
        Ok(())
    }

    /// A new variable named `name` of type `t` is stored.
    fn store_fresh(&mut self, name: &String, t: TokenType)
        requires
            old(self).state().stack.len() > 0,
            crate::environments::all_typed(old(self).state().stack),
        ensures
            final(self).state() == gen_store(old(self).state(), fresh_variable(name@, t)),
            crate::environments::all_typed(final(self).state().stack),
            final(self).state().stack.len() == old(self).state().stack.len(),
    {
        let mut variable = Variable::new();
        variable.variable_type = Some(t);
        variable.name = Some(name.clone());
        variable.value = None;
        variable.is_reasigned = false;
        self.insert_variable_into_environments_stack(name.clone(), variable);
    }

    /// The byte code of `bool x = e` (or `int`, `double`, `char`, `string`).
    fn generate_definition(&mut self, kind: StatementType, name: &Token, left: &OperationNode) -> (r:
        Result<(), String>)
        requires
            has_values(left@),
            old(self).state().stack.len() > 0,
            crate::environments::all_typed(old(self).state().stack),
            has_room(old(self).state(), 5 * node_count(left@) as int, 8 * node_count(left@) as int + 2),
        ensures
            numbered(old(self).state()) ==> numbered(final(self).state()),
            gen_done(final(self).state(), r, gen_definition(old(self).state(), kind, name@, left@)),
            crate::environments::all_typed(final(self).state().stack),
            final(self).state().stack.len() == old(self).state().stack.len(),
            grows_lines(old(self).state(), final(self).state(), 5 * node_count(left@) as int, 8 * node_count(left@) as int + 2),
    {
        let (t, ty, zero): (TokenType, &str, &str) = match kind {
            StatementType::DefineBool => (TokenType::Bool, "bool", "False"),
            StatementType::DefineInt => (TokenType::Int, "int", "0"),
            StatementType::DefineDouble => (TokenType::Double, "double", "0"),
            StatementType::DefineChar => (TokenType::Char, "char", "''"),
            _ => (TokenType::String, "string", "\"\""),
        };
        self.store_fresh(&name.value, t);
        let (from, _) = match self.define_operation_node_variables(left) {
            Ok(x) => x,
            Err(e) => {
                return Err(e);
            },
        };
        self.assign_variable(&name.value, ty, zero, &from)
    }

    /// The variable defined with the type of the value held in `from`.
    fn define_inferred(&mut self, name: &String, from: &String, t: TokenType) -> (r: Result<(), String>)
        requires
            old(self).state().stack.len() > 0,
            crate::environments::all_typed(old(self).state().stack),
            has_room(old(self).state(), 0, 2),
        ensures
            numbered(old(self).state()) ==> numbered(final(self).state()),
            gen_done(final(self).state(), r, gen_inferred(old(self).state(), name@, from@, t)),
            crate::environments::all_typed(final(self).state().stack),
            final(self).state().stack.len() == old(self).state().stack.len(),
            grows_lines(old(self).state(), final(self).state(), 0, 2),
    {
        let target: Option<(TokenType, &str, &str)> = if t == TokenType::IntNumber {
            Some((TokenType::Int, "int", "0"))
        } else if t == TokenType::DoubleNumber {
            Some((TokenType::Double, "double", "0"))
        } else if t == TokenType::StringSequence {
            Some((TokenType::String, "string", "\"\""))
        } else if t == TokenType::Character {
            Some((TokenType::Char, "string", "\"\""))
        } else if t == TokenType::Bool || t == TokenType::True || t == TokenType::False {
            Some((TokenType::Bool, "bool", "False"))
        } else {
            None
        };
        match target {
            None => Ok(()),
            Some((vt, ty, zero)) => {
                self.store_fresh(name, vt);
                self.assign_variable(name, ty, zero, from)
            },
        }
    }

    /// The byte code of `var x = e`.
    fn generate_var(&mut self, name: &Token, left: &OperationNode) -> (r: Result<(), String>)
        requires
            has_values(left@),
            old(self).state().stack.len() > 0,
            crate::environments::all_typed(old(self).state().stack),
            has_room(old(self).state(), 5 * node_count(left@) as int, 8 * node_count(left@) as int + 2),
        ensures
            numbered(old(self).state()) ==> numbered(final(self).state()),
            gen_done(final(self).state(), r, gen_var(old(self).state(), name@, left@)),
            crate::environments::all_typed(final(self).state().stack),
            final(self).state().stack.len() == old(self).state().stack.len(),
            grows_lines(old(self).state(), final(self).state(), 5 * node_count(left@) as int, 8 * node_count(left@) as int + 2),
    {
        let (from, t) = match self.define_operation_node_variables(left) {
            Ok(x) => x,
            Err(e) => {
                return Err(e);
            },
        };
        self.define_inferred(&name.value, &from, t)
    }

    /// The operation `vn = vn op from`.
    fn operate_on(&mut self, op: &str, vn: &String, from: &String)
        requires
            has_room(old(self).state(), 0, 1),
        ensures
            numbered(old(self).state()) ==> numbered(final(self).state()),
            final(self).state() == self_operation(old(self).state(), op@, vn@, from@),
            grows(old(self).state(), final(self).state(), 0, 1),
    {
        let mut body = String::from_str("Operation:");
        body.append(op);
        body.append(":");
        body.append(quote(vn).as_str());
        body.append(":");
        body.append(quote(vn).as_str());
        body.append(":");
        body.append(quote(from).as_str());
        self.write(body);
    }

    /// The conversion `vn = from` as a `ty`.
    fn convert_to(&mut self, ty: &str, vn: &String, from: &String)
        requires
            has_room(old(self).state(), 0, 1),
        ensures
            numbered(old(self).state()) ==> numbered(final(self).state()),
            final(self).state() == self_convert(old(self).state(), ty@, vn@, from@),
            grows(old(self).state(), final(self).state(), 0, 1),
    {
        let mut body = String::from_str("Convert:");
        body.append(ty);
        body.append(":");
        body.append(quote(vn).as_str());
        body.append(":");
        body.append(quote(from).as_str());
        self.write(body);
    }

    /// The byte code of an assignment to the defined variable `vn`.
    fn update_variable(&mut self, vt: TokenType, vn: &String, op: TokenType, from: String, t: TokenType)
        requires
            has_room(old(self).state(), 3, 7),
        ensures
            numbered(old(self).state()) ==> numbered(final(self).state()),
            final(self).state() == gen_update(old(self).state(), vt, vn@, op, from@, t),
            grows(old(self).state(), final(self).state(), 3, 7),
    {
        if vt == TokenType::Bool {
            self.convert_to("bool", vn, &from);
        } else if vt == TokenType::Int {
            let left = if t == TokenType::DoubleNumber {
                self.convert_into("int", "0", &from)
            } else {
                from
            };
            if op == TokenType::PlusEqual {
                self.operate_on("Plus", vn, &left);
            } else if op == TokenType::MinusEqual {
                self.operate_on("Minus", vn, &left);
            } else if op == TokenType::MulEqual {
                self.operate_on("Mul", vn, &left);
            } else if op == TokenType::DivEqual {
                let first = self.convert_into("double", "0", &left);
                let second = self.convert_into("double", "0", vn);
                let mut body = String::from_str("Operation:Mod:");
                body.append(quote(vn).as_str());
                body.append(":");
                body.append(quote(&second).as_str());
                body.append(":");
                body.append(quote(&first).as_str());
                self.write(body);
            } else if op == TokenType::ModEqual {
                self.operate_on("Mod", vn, &left);
            } else {
                self.convert_to("int", vn, &left);
            }
        } else if vt == TokenType::Double {
            let left = if t == TokenType::IntNumber {
                self.convert_into("double", "0", &from)
            } else {
                from
            };
            if op == TokenType::PlusEqual {
                self.operate_on("Plus", vn, &left);
            } else if op == TokenType::MinusEqual {
                self.operate_on("Minus", vn, &left);
            } else if op == TokenType::MulEqual {
                self.operate_on("Mul", vn, &left);
            } else if op == TokenType::DivEqual {
                self.operate_on("Div", vn, &left);
            } else if op == TokenType::ModEqual {
                self.operate_on("Mod", vn, &left);
            } else {
                self.convert_to("double", vn, &left);
            }
        } else if vt == TokenType::Char {
            self.convert_to("char", vn, &from);
        } else if vt == TokenType::String {
            let left = if t == TokenType::Character {
                self.convert_into("string", "\"\"", &from)
            } else {
                from
            };
            if op == TokenType::PlusEqual {
                self.operate_on("Plus", vn, &left);
            } else {
                self.convert_to("string", vn, &left);
            }
        }
    }

    /// The byte code of an assignment `x op e`.
    fn generate_define_variable(&mut self, name: &Token, operator: &Token, left: &OperationNode) -> (r:
        Result<(), String>)
        requires
            has_values(left@),
            old(self).state().stack.len() > 0,
            crate::environments::all_typed(old(self).state().stack),
            has_room(old(self).state(), 5 * node_count(left@) as int + 3, 8 * node_count(left@) as int + 7),
        ensures
            numbered(old(self).state()) ==> numbered(final(self).state()),
            gen_done(final(self).state(), r, gen_assignment(old(self).state(), name@, operator@, left@)),
            crate::environments::all_typed(final(self).state().stack),
            final(self).state().stack.len() == old(self).state().stack.len(),
            grows_lines(old(self).state(), final(self).state(), 5 * node_count(left@) as int + 3, 8 * node_count(left@) as int + 7),
    {
        let (from, t) = match self.define_operation_node_variables(left) {
            Ok(x) => x,
            Err(e) => {
                return Err(e);
            },
        };
        let exists = crate::analyzer::find_variable_in(&self.environments_stack, &name.value);
        match exists {
            Some(variable_type) => {
                proof {
                    lemma_found_has_index(self.state().stack, name@.value);
                }
                let variable_name = match self.generate_variable_name(&name.value) {
                    Ok(x) => x,
                    Err(e) => {
                        return Err(e);
                    },
                };
                self.update_variable(variable_type, &variable_name, operator.token_type, from, t);
                Ok(())
            },
            None => self.define_inferred(&name.value, &from, t),
        }
    }

    /// The byte code of `print(x)`.
    fn generate_define_print_variable(&mut self, variable: &Token) -> (r: Result<(), String>)
        requires
            has_room(old(self).state(), 1, 2),
            crate::environments::all_typed(old(self).state().stack),
        ensures
            numbered(old(self).state()) ==> numbered(final(self).state()),
            gen_done(final(self).state(), r, gen_print(old(self).state(), variable@)),
            grows(old(self).state(), final(self).state(), 1, 2),
    {
        let (name, _) = match self.generate_leaf(variable) {
            Ok(x) => x,
            Err(e) => {
                return Err(e);
            },
        };
        let mut body = String::from_str("Print:");
        body.append(quote(&name).as_str());
        self.write(body);
        Ok(())
    }
}

/// A variable stored in a generator's scopes is what a read of its name
/// gives back, in any scope; reads of other names give what they gave
/// before.
pub proof fn lemma_stored_then_found(stack: Seq<EnvironmentView>, v: VariableView, name: Seq<char>)
    requires
        stack.len() > 0,
        v.name is Some,
    ensures
        find_variable(stored(stack, v), name) == if is_named(v, name) {
            Some(v)
        } else {
            find_variable(stack, name)
        },
    decreases stack.len(),
{
    let vn = v.name.unwrap();
    let st = stored(stack, v);
    crate::environments::lemma_put_find_var(stack[0].variables, v, name);
    if find_var(stack[0].variables, vn) is Some || stack.len() == 1 {
        if find_var(stack[0].variables, vn) is None {
            assert(scope_index(stack.drop_first(), vn) is None);
        }
        assert(st[0].variables == put_var(stack[0].variables, v));
        assert(st.drop_first() =~= stack.drop_first());
    } else {
        let rest = stack.drop_first();
        lemma_stored_then_found(rest, v, name);
        lemma_scope_index_bounds(rest, vn);
        assert(st.drop_first() =~= stored(rest, v));
        assert(st[0] == stack[0]);
        if find_var(stack[0].variables, name) is Some {
            assert(!is_named(v, name));
        }
    }
}

/// Storing a typed variable keeps every variable of the scopes typed.
proof fn lemma_stored_typed(stack: Seq<EnvironmentView>, v: VariableView)
    requires
        crate::environments::all_typed(stack),
        stack.len() > 0,
        v.variable_type is Some,
        v.name is Some,
    ensures
        crate::environments::all_typed(stored(stack, v)),
        stored(stack, v).len() == stack.len(),
{
    let name = v.name.unwrap();
    lemma_scope_index_bounds(stack, name);
    let i = match scope_index(stack, name) {
        Some(k) => k - 1,
        None => stack.len() - 1,
    };
    let vars = stack[i].variables;
    crate::environments::lemma_put_var_members(vars, v);
    let st = stored(stack, v);
    assert forall|a: int, b: int| 0 <= a < st.len() && 0 <= b < st[a].variables.len() implies (
    #[trigger] st[a].variables[b]).variable_type is Some by {
        if a == i {
            let p = put_var(vars, v);
            assert(st[a].variables == p);
            if p[b] != v {
                let k = choose|k: int| 0 <= k < vars.len() && vars[k] == p[b];
                assert(stack[i].variables[k] == p[b]);
            }
        } else {
            assert(st[a] == stack[a]);
        }
    }
}

/// The place of a scope that holds a name is among the scopes.
proof fn lemma_scope_index_bounds(stack: Seq<EnvironmentView>, name: Seq<char>)
    ensures
        scope_index(stack, name) matches Some(i) ==> 1 <= i <= stack.len(),
    decreases stack.len(),
{
    if stack.len() > 0 {
        lemma_scope_index_bounds(stack.drop_first(), name);
    }
}


/// The places of `If` lines as views.
pub open spec fn cond_views(v: Seq<(usize, u128, String)>) -> Seq<(int, int, Seq<char>)> {
    v.map_values(|c: (usize, u128, String)| (c.0 as int, c.1 as int, c.2@))
}

/// The places of `GoTo` lines as views.
pub open spec fn jump_views(v: Seq<(usize, u128)>) -> Seq<(int, int)> {
    v.map_values(|c: (usize, u128)| (c.0 as int, c.1 as int))
}

/// The text padded with spaces to 80 characters.
fn append_empty_lines(string: String) -> (r: String)
    ensures
        r@ == pad(string@),
{
    let mut string = string;
    let ghost start = string@;
    let mut n = string.as_str().unicode_len();
    if n >= 80 {
        return string;
    }
    assert(start + Seq::new(0, |i: int| ' ') =~= start);
    while n < 80
        invariant
            start.len() < 80,
            start.len() <= n <= 80,
            string@ == start + Seq::new((n - start.len()) as nat, |i: int| ' '),
        decreases 80 - n,
    {
        let ghost before = string@;
        push_char(&mut string, ' ');
        n = n + 1;
        assert(string@ =~= start + Seq::new((n - start.len()) as nat, |i: int| ' '));
    }
    string
}

impl ByteCodeGenerator {
    /// Gives the `If` line recorded in `c` the target `target`.
    fn rewrite_if_line(&mut self, c: &(usize, u128, String), target: u128)
        requires
            c.0 < old(self).state().lines.len(),
        ensures
            final(self).state() == rewrite(
                old(self).state(),
                c.0 as int,
                if_text((c.0 as int, c.1 as int, c.2@), target as int),
            ),
            numbered(old(self).state()) && c.0 == c.1 ==> numbered(final(self).state()),
    {
        let mut text = String::new();
        push_decimal(&mut text, c.1);
        text.append(":If:");
        text.append(quote(&c.2).as_str());
        text.append(":");
        let mut number = String::new();
        push_decimal(&mut number, target);
        text.append(append_empty_lines(number).as_str());
        let ghost t = text@;
        let ghost g = self.state();
        self.lines.set(c.0, text);
        assert(self.state().lines =~= g.lines.update(c.0 as int, t));
        proof {
            if numbered(g) && c.0 == c.1 {
                let p = decimal_text(c.0 as nat) + ":"@;
                reveal_strlit(":If:");
                reveal_strlit(":");
                assert(t.subrange(0, p.len() as int) =~= p);
                lemma_rewrite_numbered(g, c.0 as int, t);
            }
        }
    }

    /// Gives each of the `GoTo` lines recorded in `jumps` the target
    /// `target`.
    fn patch_jumps(&mut self, jumps: &Vec<(usize, u128)>, target: u128)
        requires
            forall|k: int| 0 <= k < jumps@.len() ==> (#[trigger] jumps@[k]).0 < old(self).state().lines.len(),
        ensures
            final(self).state() == (GenState {
                lines: patch_gotos(old(self).state().lines, jump_views(jumps@), target as int),
                counter: old(self).state().counter,
                line: old(self).state().line,
                stack: old(self).state().stack,
            }),
            final(self).state().lines.len() == old(self).state().lines.len(),
            numbered(old(self).state()) && (forall|k: int| 0 <= k < jumps@.len() ==> (#[trigger] jumps@[k]).0 == jumps@[k].1)
                ==> numbered(final(self).state()),
    {
        let ghost g = self.state();
        let ghost all = jump_views(jumps@);
        proof {
            if numbered(g) && (forall|k: int| 0 <= k < jumps@.len() ==> (#[trigger] jumps@[k]).0 == jumps@[k].1) {
                assert forall|k: int| 0 <= k < all.len() implies 0 <= (#[trigger] all[k]).0 < g.lines.len() && all[k].0
                    == all[k].1 by {
                    assert(all[k] == (jumps@[k].0 as int, jumps@[k].1 as int));
                }
                lemma_patch_numbered(g.lines, all, target as int);
            }
        }
        let mut k: usize = 0;
        assert(all.subrange(0, all.len() as int) =~= all);
        while k < jumps.len()
            invariant
                k <= jumps@.len(),
                all == jump_views(jumps@),
                all.len() == jumps@.len(),
                self.state().counter == g.counter,
                self.state().line == g.line,
                self.state().stack == g.stack,
                self.state().lines.len() == g.lines.len(),
                forall|m: int| 0 <= m < jumps@.len() ==> (#[trigger] jumps@[m]).0 < g.lines.len(),
                patch_gotos(g.lines, all, target as int) == patch_gotos(
                    self.state().lines,
                    all.subrange(k as int, all.len() as int),
                    target as int,
                ),
            decreases jumps@.len() - k,
        {
            let (at, line) = jumps[k];
            let mut text = String::new();
            push_decimal(&mut text, line);
            text.append(":GoTo:");
            let mut number = String::new();
            push_decimal(&mut number, target);
            text.append(append_empty_lines(number).as_str());
            let ghost before = self.state().lines;
            let ghost t = text@;
            let ghost rest = all.subrange(k as int, all.len() as int);
            assert(rest[0] == (at as int, line as int));
            assert(rest.drop_first() =~= all.subrange(k as int + 1, all.len() as int));
            self.lines.set(at, text);
            assert(self.state().lines =~= before.update(at as int, t));
            k = k + 1;
        }
        assert(all.subrange(all.len() as int, all.len() as int) =~= Seq::<(int, int)>::empty());
        assert(self.state() =~= GenState {
            lines: patch_gotos(g.lines, all, target as int),
            counter: g.counter,
            line: g.line,
            stack: g.stack,
        });
    }
}

impl ByteCodeGenerator {
    /// Opens a new, empty, scope of an `if` block.
    fn push_if_scope(&mut self)
        requires
            crate::environments::all_typed(old(self).state().stack),
        ensures
            final(self).state() == push_scope(old(self).state()),
            crate::environments::all_typed(final(self).state().stack),
    {
        let ghost g = self.state();
        proof {
            crate::analyzer::lemma_scope_typed(g.stack);
        }
        self.environments_stack.push_back(Environment::new(EnvironmentScope::If));
        assert(self.state().stack =~= g.stack.push(crate::analyzer::if_scope()));
        assert(self.state() =~= push_scope(g));
    }

    /// Closes the innermost scope.
    fn pop_if_scope(&mut self)
        requires
            old(self).state().stack.len() > 0,
            crate::environments::all_typed(old(self).state().stack),
        ensures
            final(self).state() == pop_scope(old(self).state()),
            crate::environments::all_typed(final(self).state().stack),
    {
        let ghost g = self.state();
        proof {
            crate::analyzer::lemma_scope_typed(g.stack);
        }
        let _ = self.environments_stack.pop_back();
        assert(self.state().stack =~= g.stack.drop_last());
        assert(self.state() =~= pop_scope(g));
    }

    /// The byte code of the statements of a block, in order, up to the
    /// first error.
    fn generate_statements_node(&mut self, block: &StatementsNode) -> (r: Result<(), String>)
        requires
            block_ready(*block, 0),
            old(self).state().stack.len() > 0,
            crate::environments::all_typed(old(self).state().stack),
            has_room(old(self).state(), (5 * block_size(*block, 0)) as int, (8 * block_size(*block, 0)) as int),
        ensures
            numbered(old(self).state()) ==> numbered(final(self).state()),
            gen_done(final(self).state(), r, gen_block(old(self).state(), *block, 0)),
            crate::environments::all_typed(final(self).state().stack),
            r is Ok ==> final(self).state().stack.len() == old(self).state().stack.len(),
            grows_lines(old(self).state(), final(self).state(), (5 * block_size(*block, 0)) as int, (8 * block_size(*block, 0)) as int),
        decreases *block, block.statements@.len(),
    {
        let ghost g0 = self.state();
        let ghost total = block_size(*block, 0);
        let mut i: usize = 0;
        while i < block.statements.len()
            invariant
                i <= block.statements@.len(),
                g0 == old(self).state(),
                total == block_size(*block, 0),
                block_ready(*block, i as int),
                crate::environments::all_typed(self.state().stack),
                self.state().stack.len() == g0.stack.len(),
                g0.stack.len() > 0,
                gen_block(g0, *block, 0) == gen_block(self.state(), *block, i as int),
                numbered(g0) ==> numbered(self.state()),
                has_room(g0, (5 * total) as int, (8 * total) as int),
                grows_lines(
                    g0,
                    self.state(),
                    5 * (total - block_size(*block, i as int)),
                    8 * (total - block_size(*block, i as int)),
                ),
            decreases block.statements@.len() - i,
        {
            let ghost here = block_size(*block, i as int);
            assert(here == statement_size(block.statements[i as int]) + block_size(*block, i + 1));
            match self.generate_statement_node(&block.statements[i]) {
                Ok(()) => {},
                Err(e) => {
                    return Err(e);
                },
            }
            i = i + 1;
        }
        Ok(())
    }

    /// The byte code of one statement.
    fn generate_statement_node(&mut self, statement: &StatementNode) -> (r: Result<(), String>)
        requires
            statement_ready(*statement),
            old(self).state().stack.len() > 0,
            crate::environments::all_typed(old(self).state().stack),
            has_room(old(self).state(), (5 * statement_size(*statement)) as int, (8 * statement_size(*statement)) as int),
        ensures
            numbered(old(self).state()) ==> numbered(final(self).state()),
            gen_done(final(self).state(), r, gen_statement(old(self).state(), *statement)),
            crate::environments::all_typed(final(self).state().stack),
            r is Ok ==> final(self).state().stack.len() == old(self).state().stack.len(),
            grows_lines(
                old(self).state(),
                final(self).state(),
                (5 * statement_size(*statement)) as int,
                (8 * statement_size(*statement)) as int,
            ),
        decreases *statement, 0int,
    {
        match statement.statement_type {
            Some(StatementType::DefineBool) => {
                let d = statement.define_bool_statement.as_ref().unwrap();
                self.generate_definition(StatementType::DefineBool, d.name.as_ref().unwrap(), d.left.as_ref().unwrap())
            },
            Some(StatementType::DefineInt) => {
                let d = statement.define_int_statement.as_ref().unwrap();
                self.generate_definition(StatementType::DefineInt, d.name.as_ref().unwrap(), d.left.as_ref().unwrap())
            },
            Some(StatementType::DefineDouble) => {
                let d = statement.define_double_statement.as_ref().unwrap();
                self.generate_definition(
                    StatementType::DefineDouble,
                    d.name.as_ref().unwrap(),
                    d.left.as_ref().unwrap(),
                )
            },
            Some(StatementType::DefineChar) => {
                let d = statement.define_char_statement.as_ref().unwrap();
                self.generate_definition(StatementType::DefineChar, d.name.as_ref().unwrap(), d.left.as_ref().unwrap())
            },
            Some(StatementType::DefineString) => {
                let d = statement.define_string_statement.as_ref().unwrap();
                self.generate_definition(
                    StatementType::DefineString,
                    d.name.as_ref().unwrap(),
                    d.left.as_ref().unwrap(),
                )
            },
            Some(StatementType::DefineVar) => {
                let d = statement.define_var_statement.as_ref().unwrap();
                self.generate_var(d.name.as_ref().unwrap(), d.left.as_ref().unwrap())
            },
            Some(StatementType::DefineVariable) => {
                let d = statement.define_variable_statement.as_ref().unwrap();
                self.generate_define_variable(
                    d.name.as_ref().unwrap(),
                    d.operator.as_ref().unwrap(),
                    d.left.as_ref().unwrap(),
                )
            },
            Some(StatementType::Print) => {
                let d = statement.define_print_statement.as_ref().unwrap();
                self.generate_define_print_variable(d.variable.as_ref().unwrap())
            },
            Some(StatementType::DefineIf) => {
                self.generate_if_statement(statement.define_if_statement.as_ref().unwrap())
            },
            _ => Ok(()),
        }
    }
}

impl ByteCodeGenerator {
    /// The byte code of one condition and its block: the condition, an
    /// `If` line, the block in a scope of its own, and a `GoTo` line. The
    /// places of the `If` and `GoTo` lines are returned, to be given their
    /// targets later.
    fn generate_branch(&mut self, condition: &OperationNode, body: &StatementsNode) -> (r: Result<
        ((usize, u128, String), (usize, u128)),
        String,
    >)
        requires
            has_values(condition@),
            block_ready(*body, 0),
            old(self).state().stack.len() > 0,
            crate::environments::all_typed(old(self).state().stack),
            has_room(old(self).state(), (5 * branch_size(condition@, *body)) as int, (8 * branch_size(condition@, *body)) as int),
        ensures
            ({
                let (g, e, c, jump) = gen_branch(old(self).state(), condition@, *body);
                &&& final(self).state() == g
                &&& match r {
                    Ok((c1, j1)) => e is None && (c1.0 as int, c1.1 as int, c1.2@) == c && (
                    j1.0 as int, j1.1 as int) == jump,
                    Err(m) => e == Some(m@),
                }
            }),
            crate::environments::all_typed(final(self).state().stack),
            r is Ok ==> final(self).state().stack.len() == old(self).state().stack.len(),
            r matches Ok((c1, j1)) ==> c1.0 < j1.0 < final(self).state().lines.len(),
            numbered(old(self).state()) ==> numbered(final(self).state()),
            numbered(old(self).state()) ==> (r matches Ok((c1, j1)) ==> c1.0 == c1.1 && j1.0 == j1.1),
            grows_lines(
                old(self).state(),
                final(self).state(),
                (5 * branch_size(condition@, *body)) as int,
                8 * branch_size(condition@, *body) as int - 6,
            ),
        decreases *body, body.statements@.len() + 1,
    {
        let (cname, _) = match self.define_operation_node_variables(condition) {
            Ok(x) => x,
            Err(e) => {
                return Err(e);
            },
        };
        self.push_if_scope();
        let c = (self.lines.len(), self.current_instruction_line + 1, cname.clone());
        let mut text = String::from_str("If:");
        text.append(quote(&cname).as_str());
        text.append(":");
        text.append(append_empty_lines(String::from_str("0")).as_str());
        self.write(text);
        match self.generate_statements_node(body) {
            Ok(()) => {},
            Err(e) => {
                return Err(e);
            },
        }
        let jump = (self.lines.len(), self.current_instruction_line + 1);
        let mut text = String::from_str("GoTo:");
        text.append(append_empty_lines(String::from_str("0")).as_str());
        self.write(text);
        self.pop_if_scope();
        Ok((c, jump))
    }
}

impl ByteCodeGenerator {
    /// The byte code of an `if` statement. Each `If` line is given, once
    /// known, the line where the next part starts; each `GoTo` line, the
    /// line after the whole statement.
    #[verifier::rlimit(40)]
    fn generate_if_statement(&mut self, statement: &DefineIfStatementNode) -> (r: Result<(), String>)
        requires
            if_ready(*statement),
            old(self).state().stack.len() > 0,
            crate::environments::all_typed(old(self).state().stack),
            has_room(old(self).state(), (5 * if_size(*statement)) as int, (8 * if_size(*statement)) as int),
        ensures
            numbered(old(self).state()) ==> numbered(final(self).state()),
            gen_done(final(self).state(), r, gen_if(old(self).state(), *statement)),
            crate::environments::all_typed(final(self).state().stack),
            r is Ok ==> final(self).state().stack.len() == old(self).state().stack.len(),
            grows_lines(
                old(self).state(),
                final(self).state(),
                (5 * if_size(*statement)) as int,
                (8 * if_size(*statement)) as int,
            ),
        decreases *statement, statement.define_if_else_nodes@.len() + 2,
    {
        let ghost g0 = self.state();
        let ghost total = if_size(*statement);
        let ghost rest = else_ifs_size(*statement, 0);
        let define_if_node = statement.define_if_node.as_ref().unwrap();
        let ghost first = branch_size(define_if_node.condition.unwrap()@, define_if_node.statements);
        let (c, jump) = match self.generate_branch(
            define_if_node.condition.as_ref().unwrap(),
            &define_if_node.statements,
        ) {
            Ok(x) => x,
            Err(e) => {
                return Err(e);
            },
        };
        let mut conds: Vec<(usize, u128, String)> = Vec::new();
        conds.push(c);
        let mut jumps: Vec<(usize, u128)> = Vec::new();
        jumps.push(jump);
        let ghost g1 = self.state();
        let ghost cv0 = cond_views(conds@);
        let ghost jv0 = jump_views(jumps@);
        assert(cv0 =~= seq![(c.0 as int, c.1 as int, c.2@)]);
        assert(jv0 =~= seq![(jump.0 as int, jump.1 as int)]);
        let mut j: usize = 0;
        while j < statement.define_if_else_nodes.len()
            invariant
                j <= statement.define_if_else_nodes@.len(),
                g0 == old(self).state(),
                total == if_size(*statement),
                rest == else_ifs_size(*statement, 0),
                total >= first + rest,
                has_room(g0, (5 * total) as int, (8 * total) as int),
                else_ifs_ready(*statement, j as int),
                if_ready(*statement),
                gen_if(g0, *statement) == gen_if_rest(g1, *statement, cv0, jv0),
                gen_else_ifs(g1, *statement, 0, cv0, jv0) == gen_else_ifs(
                    self.state(),
                    *statement,
                    j as int,
                    cond_views(conds@),
                    jump_views(jumps@),
                ),
                conds@.len() >= 1,
                forall|k: int| 0 <= k < conds@.len() ==> (#[trigger] conds@[k]).0 < self.state().lines.len(),
                forall|k: int| 0 <= k < jumps@.len() ==> (#[trigger] jumps@[k]).0 < self.state().lines.len(),
                numbered(g0) ==> numbered(self.state()),
                numbered(g0) ==> forall|k: int| 0 <= k < conds@.len() ==> (#[trigger] conds@[k]).0 == conds@[k].1,
                numbered(g0) ==> forall|k: int| 0 <= k < jumps@.len() ==> (#[trigger] jumps@[k]).0 == jumps@[k].1,
                crate::environments::all_typed(self.state().stack),
                self.state().stack.len() == g0.stack.len(),
                g0.stack.len() > 0,
                grows_lines(
                    g0,
                    self.state(),
                    5 * (first + rest - else_ifs_size(*statement, j as int)),
                    8 * (first + rest - else_ifs_size(*statement, j as int)) - 6,
                ),
            decreases statement.define_if_else_nodes@.len() - j,
        {
            let define_if_else_node = &statement.define_if_else_nodes[j];
            assert(else_if_ready(*define_if_else_node));
            let ghost here = else_ifs_size(*statement, j as int);
            assert(here == branch_size(define_if_else_node.condition.unwrap()@, define_if_else_node.statements)
                + else_ifs_size(*statement, j + 1));
            let target = self.current_instruction_line + 1;
            let last = conds.len() - 1;
            self.rewrite_if_line(&conds[last], target);
            let ghost before = conds@;
            let (c, jump) = match self.generate_branch(
                define_if_else_node.condition.as_ref().unwrap(),
                &define_if_else_node.statements,
            ) {
                Ok(x) => x,
                Err(e) => {
                    return Err(e);
                },
            };
            let ghost cv = cond_views(conds@);
            let ghost jv = jump_views(jumps@);
            conds.push(c);
            jumps.push(jump);
            assert(cond_views(conds@) =~= cv.push((c.0 as int, c.1 as int, c.2@)));
            assert(jump_views(jumps@) =~= jv.push((jump.0 as int, jump.1 as int)));
            j = j + 1;
        }
        assert(else_ifs_size(*statement, j as int) == 0);
        let last = conds.len() - 1;
        match &statement.define_else_node {
            Some(define_else_node) => {
                assert(total == first + rest + 1 + block_size(define_else_node.statements, 0));
                self.push_if_scope();
                let target = self.current_instruction_line + 1;
                self.rewrite_if_line(&conds[last], target);
                self.write(String::from_str("Else:"));
                match self.generate_statements_node(&define_else_node.statements) {
                    Ok(()) => {},
                    Err(e) => {
                        return Err(e);
                    },
                }
                self.pop_if_scope();
            },
            None => {
                assert(total == first + rest);
                let target = self.current_instruction_line + 1;
                self.rewrite_if_line(&conds[last], target);
            },
        }
        let target = self.current_instruction_line + 1;
        self.patch_jumps(&jumps, target);
        Ok(())
    }
}

/// The first line of every byte-code file: its kind and version.
pub open spec fn header() -> Seq<char> {
    "0:EngineByteCode:"@ + VERSION@
}

/// The byte code of a whole program: the header line, the statements, and
/// an `End` line after them.
pub open spec fn gen_program(g: GenState, tree: StatementsNode) -> (GenState, Option<Seq<char>>) {
    let g0 = GenState { lines: g.lines.push(header()), counter: g.counter, line: g.line, stack: g.stack };
    let (g1, e) = gen_block(g0, tree, 0);
    if e is Some {
        (g1, e)
    } else {
        (emit(g1, "End:"@), None)
    }
}

/// Writes the byte code of the generator's tree: the header line, the
/// statements, and an `End` line; the first error stops it.
pub fn generate_byte_code(byte_code_generator: &mut ByteCodeGenerator) -> (r: Result<(), String>)
    requires
        block_ready(old(byte_code_generator).tree(), 0),
        old(byte_code_generator).state().stack.len() > 0,
        crate::environments::all_typed(old(byte_code_generator).state().stack),
        has_room(
            old(byte_code_generator).state(),
            (5 * block_size(old(byte_code_generator).tree(), 0)) as int,
            (8 * block_size(old(byte_code_generator).tree(), 0)) as int + 1,
        ),
    ensures
        final(byte_code_generator).tree() == old(byte_code_generator).tree(),
        gen_done(
            final(byte_code_generator).state(),
            r,
            gen_program(old(byte_code_generator).state(), old(byte_code_generator).tree()),
        ),
        old(byte_code_generator).state().lines.len() == 0 && old(byte_code_generator).state().line == 0
            ==> numbered(final(byte_code_generator).state()),
        old(byte_code_generator).state().lines.len() == 0 && old(byte_code_generator).state().line == 0
            && block_names(old(byte_code_generator).tree(), 0) && final(byte_code_generator).state().line
            < u128::MAX ==> decodes(final(byte_code_generator).state()),
        r is Ok ==> final(byte_code_generator).state().stack.len() == old(byte_code_generator).state().stack.len(),
{
    let ghost g = byte_code_generator.state();
    proof {
        if g.lines.len() == 0 && g.line == 0 && block_names(byte_code_generator.tree(), 0) {
            lemma_program_reads_back(byte_code_generator.tree(), g.counter, g.stack);
            assert(g.lines =~= Seq::<Seq<char>>::empty());
            assert(g == GenState { lines: Seq::empty(), counter: g.counter, line: 0, stack: g.stack });
        }
    }
    let mut tree = StatementsNode::new();
    std::mem::swap(&mut tree, &mut byte_code_generator.syntax_tree);
    let mut header = String::from_str("0:EngineByteCode:");
    header.append(VERSION);
    let ghost h = header@;
    byte_code_generator.lines.push(header);
    assert(byte_code_generator.state().lines =~= g.lines.push(h));
    proof {
        if g.lines.len() == 0 && g.line == 0 {
            let p = decimal_text(0) + ":"@;
            reveal_strlit("0:EngineByteCode:");
            reveal_strlit(":");
            assert(decimal_text(0) == seq!['0']);
            assert(h.subrange(0, p.len() as int) =~= p);
            assert(byte_code_generator.state().lines[0] == h);
        }
    }
    assert(byte_code_generator.state() =~= GenState {
        lines: g.lines.push(h),
        counter: g.counter,
        line: g.line,
        stack: g.stack,
    });
    let r = byte_code_generator.generate_statements_node(&tree);
    if r.is_ok() {
        byte_code_generator.write(String::from_str("End:"));
    }
    std::mem::swap(&mut tree, &mut byte_code_generator.syntax_tree);
    r
}


/* What the virtual machine reads back */

/// No character of `s` is a colon.
pub open spec fn colon_free(s: Seq<char>) -> bool {
    forall|i: int| 0 <= i < s.len() ==> s[i] != ':'
}

/// A line of byte code: its number, a colon, and its instruction.
pub open spec fn line_text(n: u128, body: Seq<char>) -> Seq<char> {
    decimal_text(n as nat) + ":"@ + body
}

/// Text without a colon, a colon and more text split at that colon.
proof fn lemma_split_after(a: Seq<char>, b: Seq<char>)
    requires
        colon_free(a),
    ensures
        split_once_colon(a + seq![':'] + b) == Some((a, b)),
    decreases a.len(),
{
    let s = a + seq![':'] + b;
    if a.len() == 0 {
        assert(s =~= seq![':'] + b);
        assert(s.drop_first() =~= b);
    } else {
        lemma_split_after(a.drop_first(), b);
        assert(s.drop_first() =~= a.drop_first() + seq![':'] + b);
        assert(seq![a[0]] + a.drop_first() =~= a);
    }
}

/// Numbers and quoted names hold no colon.
proof fn lemma_colon_free_parts(n: nat, name: Seq<char>)
    ensures
        colon_free(decimal_text(n)),
        colon_free(name) ==> colon_free(q(name)),
{
    crate::text::lemma_decimal_text_digits(n);
    reveal_strlit("\"");
    assert forall|i: int| 0 <= i < decimal_text(n).len() implies decimal_text(n)[i] != ':' by {
        assert(crate::text::is_digit_char(decimal_text(n)[i]));
    }
    if colon_free(name) {
        assert forall|i: int| 0 <= i < q(name).len() implies q(name)[i] != ':' by {
            if 1 <= i < q(name).len() - 1 {
                assert(q(name)[i] == name[i - 1]);
            }
        }
    }
}

/// A line splits into its number, which reads back, and its instruction
/// name and fields.
proof fn lemma_line_parts(n: u128, name: Seq<char>, fields: Seq<char>)
    requires
        colon_free(name),
    ensures
        split_once_colon(line_text(n, name + ":"@ + fields)) == Some((decimal_text(n as nat), name + ":"@ + fields)),
        parse_u128_text(decimal_text(n as nat)) == Some(n),
        split_once_colon(name + ":"@ + fields) == Some((name, fields)),
{
    reveal_strlit(":");
    lemma_colon_free_parts(n as nat, name);
    crate::text::lemma_parse_decimal_text(n);
    let d = decimal_text(n as nat);
    assert(line_text(n, name + ":"@ + fields) =~= d + seq![':'] + (name + ":"@ + fields));
    lemma_split_after(d, name + ":"@ + fields);
    assert(name + ":"@ + fields =~= name + seq![':'] + fields);
    lemma_split_after(name, fields);
}

/// The names of the instructions, spelled out.
proof fn lemma_instruction_names()
    ensures
        "Assign"@ =~= seq!['A', 's', 's', 'i', 'g', 'n'],
        "Convert"@ =~= seq!['C', 'o', 'n', 'v', 'e', 'r', 't'],
        "Input"@ =~= seq!['I', 'n', 'p', 'u', 't'],
        "Print"@ =~= seq!['P', 'r', 'i', 'n', 't'],
        "Operation"@ =~= seq!['O', 'p', 'e', 'r', 'a', 't', 'i', 'o', 'n'],
        "If"@ =~= seq!['I', 'f'],
        "Else"@ =~= seq!['E', 'l', 's', 'e'],
        "GoTo"@ =~= seq!['G', 'o', 'T', 'o'],
        "End"@ =~= seq!['E', 'n', 'd'],
{
    reveal_strlit("Assign");
    reveal_strlit("Convert");
    reveal_strlit("Input");
    reveal_strlit("Print");
    reveal_strlit("Operation");
    reveal_strlit("If");
    reveal_strlit("Else");
    reveal_strlit("GoTo");
    reveal_strlit("End");
}

/// Where the generator writes `n:Assign:ty:"name":value`, the virtual
/// machine reads an `Assign` of that type, name and value, numbered `n`.
pub proof fn lemma_assign_line_read_back(n: u128, ty: Seq<char>, name: Seq<char>, value: Seq<char>, current_line: int)
    requires
        colon_free(ty),
        colon_free(name),
    ensures
        decode_instruction(line_text(n, "Assign:"@ + ty + ":"@ + q(name) + ":"@ + value), current_line) == Ok::<
            (DecodedInstruction, u128),
            Seq<char>,
        >((DecodedInstruction::Assign { assign_type: type_token(ty), variable_name: q(name), value: value }, n)),
{
    reveal_strlit("Assign:");
    reveal_strlit("Assign");
    lemma_instruction_names();
    reveal_strlit(":");
    let fields = ty + ":"@ + q(name) + ":"@ + value;
    assert("Assign:"@ + ty + ":"@ + q(name) + ":"@ + value =~= "Assign"@ + ":"@ + fields);
    lemma_line_parts(n, "Assign"@, fields);
    lemma_colon_free_parts(0, name);
    assert(fields =~= ty + seq![':'] + (q(name) + ":"@ + value));
    lemma_split_after(ty, q(name) + ":"@ + value);
    assert(q(name) + ":"@ + value =~= q(name) + seq![':'] + value);
    lemma_split_after(q(name), value);
}

/// Where the generator writes `n:Convert:ty:"to":"from"`, the virtual
/// machine reads a `Convert` of that type and those names, numbered `n`.
pub proof fn lemma_convert_line_read_back(n: u128, ty: Seq<char>, to: Seq<char>, from: Seq<char>, current_line: int)
    requires
        colon_free(ty),
        colon_free(to),
    ensures
        decode_instruction(line_text(n, "Convert:"@ + ty + ":"@ + q(to) + ":"@ + q(from)), current_line) == Ok::<
            (DecodedInstruction, u128),
            Seq<char>,
        >((DecodedInstruction::Convert { convertion_type: type_token(ty), convert_to: q(to), convert_from: q(from) }, n)),
{
    reveal_strlit("Convert:");
    reveal_strlit("Convert");
    lemma_instruction_names();
    reveal_strlit(":");
    let fields = ty + ":"@ + q(to) + ":"@ + q(from);
    assert("Convert:"@ + ty + ":"@ + q(to) + ":"@ + q(from) =~= "Convert"@ + ":"@ + fields);
    lemma_line_parts(n, "Convert"@, fields);
    lemma_colon_free_parts(0, to);
    assert(fields =~= ty + seq![':'] + (q(to) + ":"@ + q(from)));
    lemma_split_after(ty, q(to) + ":"@ + q(from));
    assert(q(to) + ":"@ + q(from) =~= q(to) + seq![':'] + q(from));
    lemma_split_after(q(to), q(from));
}

/// Where the generator writes `n:Operation:op:"target":"left":"right"`,
/// the virtual machine reads that operation on those names, numbered `n`.
pub proof fn lemma_operation_line_read_back(
    n: u128,
    op: Seq<char>,
    target: Seq<char>,
    left: Seq<char>,
    right: Seq<char>,
    current_line: int,
)
    requires
        colon_free(op),
        colon_free(target),
        colon_free(left),
    ensures
        decode_instruction(
            line_text(n, "Operation:"@ + op + ":"@ + q(target) + ":"@ + q(left) + ":"@ + q(right)),
            current_line,
        ) == Ok::<(DecodedInstruction, u128), Seq<char>>(
            (
                DecodedInstruction::Operation {
                    operation_type: operation_token(op),
                    assign_to_variable: q(target),
                    left_variable: q(left),
                    right_variable: q(right),
                },
                n,
            ),
        ),
{
    reveal_strlit("Operation:");
    reveal_strlit("Operation");
    lemma_instruction_names();
    reveal_strlit(":");
    let fields = op + ":"@ + q(target) + ":"@ + q(left) + ":"@ + q(right);
    assert("Operation:"@ + op + ":"@ + q(target) + ":"@ + q(left) + ":"@ + q(right) =~= "Operation"@ + ":"@
        + fields);
    lemma_line_parts(n, "Operation"@, fields);
    lemma_colon_free_parts(0, target);
    lemma_colon_free_parts(0, left);
    assert(fields =~= op + seq![':'] + (q(target) + ":"@ + q(left) + ":"@ + q(right)));
    lemma_split_after(op, q(target) + ":"@ + q(left) + ":"@ + q(right));
    assert(q(target) + ":"@ + q(left) + ":"@ + q(right) =~= q(target) + seq![':'] + (q(left) + ":"@ + q(right)));
    lemma_split_after(q(target), q(left) + ":"@ + q(right));
    assert(q(left) + ":"@ + q(right) =~= q(left) + seq![':'] + q(right));
    lemma_split_after(q(left), q(right));
}

/// Where the generator writes `n:Print:"name"`, `n:Input:"name"`,
/// `n:Else:` or `n:End:`, the virtual machine reads that instruction,
/// numbered `n`.
#[verifier::rlimit(40)]
pub proof fn lemma_simple_lines_read_back(n: u128, name: Seq<char>, current_line: int)
    ensures
        decode_instruction(line_text(n, "Print:"@ + q(name)), current_line) == Ok::<
            (DecodedInstruction, u128),
            Seq<char>,
        >((DecodedInstruction::Print { variable_name: q(name) }, n)),
        decode_instruction(line_text(n, "Input:"@ + q(name)), current_line) == Ok::<
            (DecodedInstruction, u128),
            Seq<char>,
        >((DecodedInstruction::Input { variable_name: q(name) }, n)),
        decode_instruction(line_text(n, "Else:"@), current_line) == Ok::<(DecodedInstruction, u128), Seq<char>>(
            (DecodedInstruction::Else, n),
        ),
        decode_instruction(line_text(n, "End:"@), current_line) == Ok::<(DecodedInstruction, u128), Seq<char>>(
            (DecodedInstruction::End, n),
        ),
{
    lemma_instruction_names();
    reveal_strlit(":");
    reveal_strlit("Print:");
    reveal_strlit("Print");
    reveal_strlit("Input:");
    reveal_strlit("Input");
    reveal_strlit("Else:");
    reveal_strlit("Else");
    reveal_strlit("End:");
    reveal_strlit("End");
    reveal_strlit("Assign");
    reveal_strlit("Convert");
    assert("Print:"@ + q(name) =~= "Print"@ + ":"@ + q(name));
    lemma_line_parts(n, "Print"@, q(name));
    assert("Input:"@ + q(name) =~= "Input"@ + ":"@ + q(name));
    lemma_line_parts(n, "Input"@, q(name));
    assert("Else:"@ =~= "Else"@ + ":"@ + Seq::<char>::empty());
    lemma_line_parts(n, "Else"@, Seq::<char>::empty());
    assert("End:"@ =~= "End"@ + ":"@ + Seq::<char>::empty());
    lemma_line_parts(n, "End"@, Seq::<char>::empty());
}

/// Digits followed by spaces lose the spaces when trimmed.
proof fn lemma_trim_spaces(d: Seq<char>, k: nat)
    requires
        d.len() > 0,
        crate::text::all_digits(d),
    ensures
        trim_end(d + Seq::new(k, |i: int| ' ')) == d,
    decreases k,
{
    let s = d + Seq::new(k, |i: int| ' ');
    if k == 0 {
        assert(s =~= d);
        assert(crate::text::is_digit_char(d.last()));
    } else {
        assert(s.last() == ' ');
        assert(s.drop_last() =~= d + Seq::new((k - 1) as nat, |i: int| ' '));
        lemma_trim_spaces(d, (k - 1) as nat);
    }
}

/// A number padded with spaces reads back as the number.
proof fn lemma_padded_number(t: u128)
    ensures
        parse_u128_text(trim(pad(decimal_text(t as nat)))) == Some(t),
{
    let d = decimal_text(t as nat);
    crate::text::lemma_decimal_text_digits(t as nat);
    crate::text::lemma_parse_decimal_text(t);
    assert(crate::text::is_digit_char(d[0]));
    if d.len() >= 80 {
        lemma_trim_spaces(d, 0);
        assert(d + Seq::new(0, |i: int| ' ') =~= d);
    } else {
        lemma_trim_spaces(d, (80 - d.len()) as nat);
        assert(pad(d)[0] == d[0]);
    }
}

/// Where the generator writes an `If` line numbered `c.1` on the condition
/// held in `c.2`, going to `target`, the virtual machine reads that `If`.
pub proof fn lemma_if_line_read_back(c: (int, int, Seq<char>), target: u128, current_line: int)
    requires
        0 <= c.1 <= u128::MAX,
        colon_free(c.2),
    ensures
        decode_instruction(if_text(c, target as int), current_line) == Ok::<(DecodedInstruction, u128), Seq<char>>(
            (DecodedInstruction::If { variable_name: q(c.2), goto_line: target }, c.1 as u128),
        ),
{
    lemma_instruction_names();
    reveal_strlit(":");
    reveal_strlit(":If:");
    let n = c.1 as u128;
    let p = pad(decimal_text(target as nat));
    let fields = q(c.2) + ":"@ + p;
    assert(if_text(c, target as int) =~= line_text(n, "If"@ + ":"@ + fields));
    lemma_line_parts(n, "If"@, fields);
    lemma_colon_free_parts(0, c.2);
    assert(fields =~= q(c.2) + seq![':'] + p);
    lemma_split_after(q(c.2), p);
    lemma_padded_number(target);
}

/// Where the generator writes a `GoTo` line numbered `line` to `target`,
/// the virtual machine reads that jump.
pub proof fn lemma_goto_line_read_back(line: int, target: u128, current_line: int)
    requires
        0 <= line <= u128::MAX,
    ensures
        decode_instruction(goto_text(line, target as int), current_line) == Ok::<(DecodedInstruction, u128), Seq<char>>(
            (DecodedInstruction::GoTo { goto_line: target }, line as u128),
        ),
{
    lemma_instruction_names();
    reveal_strlit(":");
    reveal_strlit(":GoTo:");
    let n = line as u128;
    let p = pad(decimal_text(target as nat));
    assert(goto_text(line, target as int) =~= line_text(n, "GoTo"@ + ":"@ + p));
    lemma_line_parts(n, "GoTo"@, p);
    lemma_padded_number(target);
}

/* Literals read back */

/// The escaped text, built from its front: the first character's escape,
/// then the rest escaped.
proof fn lemma_escaped_front(s: Seq<char>, string: bool)
    requires
        s.len() > 0,
    ensures
        escaped(s, string) == (if string {
            string_escape(s[0])
        } else {
            char_escape(s[0])
        }) + escaped(s.drop_first(), string),
    decreases s.len(),
{
    if s.len() > 1 {
        lemma_escaped_front(s.drop_last(), string);
        assert(s.drop_last().drop_first() =~= s.drop_first().drop_last());
        assert(s.drop_first().last() == s.last());
    } else {
        assert(s.drop_first() =~= Seq::<char>::empty());
        assert(s.drop_last() =~= Seq::<char>::empty());
    }
}

/// A character's escape, read back, is the character.
proof fn lemma_unescape_one(c: char, rest: Seq<char>)
    ensures
        unescaped(string_escape(c) + rest) == seq![c] + unescaped(rest),
{
    let e = string_escape(c) + rest;
    if c == '\n' || c == '"' || c == '\t' || c == '\\' {
        assert(e.skip(2) =~= rest);
    } else {
        assert(e.skip(1) =~= rest);
    }
}

/// What the generator writes of a string literal, the virtual machine reads
/// back as the same text: unescaping undoes escaping.
pub proof fn lemma_string_escape_read_back(s: Seq<char>)
    ensures
        unescaped(escaped(s, true)) == s,
    decreases s.len(),
{
    if s.len() == 0 {
        assert(escaped(s, true) =~= Seq::<char>::empty());
    } else {
        lemma_escaped_front(s, true);
        lemma_unescape_one(s[0], escaped(s.drop_first(), true));
        lemma_string_escape_read_back(s.drop_first());
        assert(seq![s[0]] + s.drop_first() =~= s);
    }
}

/// An `Assign` of the string literal that the generator writes for `s`
/// stores `s` itself, whatever the literal's size in bytes (at least its
/// two quotes).
pub proof fn lemma_string_literal_read_back(s: Seq<char>, bytes: int, debug: Seq<char>)
    requires
        bytes >= 2,
    ensures
        assign_rule(VmTokenType::String, q(escaped(s, true)), bytes, debug) == Ok::<ComputedView, Seq<char>>(
            ComputedView::String(s),
        ),
{
    reveal_strlit("\"");
    let e = escaped(s, true);
    assert(q(e).subrange(1, q(e).len() - 1) =~= e);
    lemma_string_escape_read_back(s);
}

/// An `Assign` of the character literal that the generator writes for `c`
/// stores `c` itself, for every character but the single quote, whose
/// escape the machine reads as a backslash.
pub proof fn lemma_char_literal_read_back(c: char, bytes: int)
    requires
        c != '\'',
        bytes >= 3,
    ensures
        char_value(seq!['\''] + escaped(seq![c], false) + seq!['\''], bytes) == c,
{
    lemma_escaped_front(seq![c], false);
    assert(seq![c].drop_first() =~= Seq::<char>::empty());
    assert(escaped(Seq::<char>::empty(), false) =~= Seq::<char>::empty());
    assert(escaped(seq![c], false) =~= char_escape(c));
    let t = seq!['\''] + char_escape(c) + seq!['\''];
    if c == '\n' {
        assert(t =~= seq!['\'', '\\', 'n', '\'']);
    } else if c == '\t' {
        assert(t =~= seq!['\'', '\\', 't', '\'']);
    } else if c == '\\' {
        assert(t =~= seq!['\'', '\\', '\\', '\'']);
    } else {
        assert(t =~= seq!['\'', c, '\'']);
    }
}

/* Every line of a program reads back */

/// The line reads back as an instruction numbered `n`, whatever file line
/// it is read at.
pub open spec fn reads_back(line: Seq<char>, n: int) -> bool {
    forall|cl: int|
        #![trigger decode_instruction(line, cl)]
        decode_instruction(line, cl) is Ok && decode_instruction(line, cl)->Ok_0.1 == n
}

/// The instruction `body` reads back under any number.
pub open spec fn body_reads_back(body: Seq<char>) -> bool {
    forall|n: u128| #[trigger] reads_back(line_text(n, body), n as int)
}

/// Every line after the first, the header, reads back as the instruction
/// numbered by its place.
pub open spec fn decodes(g: GenState) -> bool {
    forall|i: int| 1 <= i < g.lines.len() ==> #[trigger] reads_back(g.lines[i], i)
}

/// The names and type words that byte code writes hold no colon.
proof fn lemma_words_colon_free()
    ensures
        colon_free("bool"@),
        colon_free("int"@),
        colon_free("double"@),
        colon_free("char"@),
        colon_free("string"@),
        colon_free("Plus"@),
        colon_free("Minus"@),
        colon_free("Mul"@),
        colon_free("Div"@),
        colon_free("Mod"@),
        forall|op: OperatorType| #[trigger] colon_free(operator_name(op)),
        forall|op: TokenType| #[trigger] colon_free(compound_operator(op)),
{
    reveal_strlit("bool");
    reveal_strlit("int");
    reveal_strlit("double");
    reveal_strlit("char");
    reveal_strlit("string");
    reveal_strlit("Plus");
    reveal_strlit("Minus");
    reveal_strlit("Mul");
    reveal_strlit("Div");
    reveal_strlit("Mod");
    reveal_strlit("Convert");
    reveal_strlit("Equal");
    reveal_strlit("GreaterThanOrEqual");
    reveal_strlit("GreaterThan");
    reveal_strlit("LessThanOrEqual");
    reveal_strlit("LessThan");
    reveal_strlit("NotEqual");
    reveal_strlit("Or");
    reveal_strlit("And");
}

/// Temporary names, and the names of variables whose own names hold no
/// colon, hold no colon.
proof fn lemma_names_colon_free(counter: nat, index: int, name: Seq<char>)
    ensures
        colon_free(temp_name(counter)),
        colon_free(name) ==> colon_free(scoped_name(index, name)),
{
    reveal_strlit("temp_");
    reveal_strlit("variable_");
    reveal_strlit("_variable_");
    reveal_strlit("stack");
    lemma_colon_free_parts(counter, name);
    lemma_colon_free_parts(index as nat, name);
    let t = temp_name(counter);
    assert forall|i: int| 0 <= i < t.len() implies t[i] != ':' by {
        if i >= 5 {
            assert(t[i] == decimal_text(counter)[i - 5]);
        }
    }
    if colon_free(name) && index == 1 {
        let u = scoped_name(index, name);
        assert forall|i: int| 0 <= i < u.len() implies u[i] != ':' by {
            if i >= 9 {
                assert(u[i] == name[i - 9]);
            }
        }
    }
    if colon_free(name) && index != 1 {
        let u = scoped_name(index, name);
        let d = decimal_text(index as nat);
        assert forall|i: int| 0 <= i < u.len() implies u[i] != ':' by {
            if i < 5 {
            } else if i < 5 + d.len() {
                assert(u[i] == d[i - 5]);
            } else if i < 15 + d.len() {
            } else {
                assert(u[i] == name[i - 15 - d.len()]);
            }
        }
    }
}

/// `Assign` lines of a type and a name without colons read back under any
/// number.
proof fn lemma_assign_body(ty: Seq<char>, a: Seq<char>, value: Seq<char>)
    requires
        colon_free(ty),
        colon_free(a),
    ensures
        body_reads_back("Assign:"@ + ty + ":"@ + q(a) + ":"@ + value),
{
    let x = "Assign:"@ + ty + ":"@ + q(a) + ":"@ + value;
    assert forall|n: u128| #[trigger] reads_back(line_text(n, x), n as int) by {
        assert forall|cl: int| #![trigger decode_instruction(line_text(n, x), cl)]
            decode_instruction(line_text(n, x), cl) is Ok && decode_instruction(line_text(n, x), cl)->Ok_0.1
                == n as int by {
            lemma_assign_line_read_back(n, ty, a, value, cl);
        }
    }
}

/// `Convert` lines of a type and a target without colons read back under
/// any number.
proof fn lemma_convert_body(ty: Seq<char>, a: Seq<char>, b: Seq<char>)
    requires
        colon_free(ty),
        colon_free(a),
    ensures
        body_reads_back("Convert:"@ + ty + ":"@ + q(a) + ":"@ + q(b)),
{
    let y = "Convert:"@ + ty + ":"@ + q(a) + ":"@ + q(b);
    assert forall|n: u128| #[trigger] reads_back(line_text(n, y), n as int) by {
        assert forall|cl: int| #![trigger decode_instruction(line_text(n, y), cl)]
            decode_instruction(line_text(n, y), cl) is Ok && decode_instruction(line_text(n, y), cl)->Ok_0.1
                == n as int by {
            lemma_convert_line_read_back(n, ty, a, b, cl);
        }
    }
}

/// `Operation` lines whose operator, target and left operand hold no colon
/// read back under any number.
proof fn lemma_operation_body(op: Seq<char>, a: Seq<char>, b: Seq<char>, c: Seq<char>)
    requires
        colon_free(op),
        colon_free(a),
        colon_free(b),
    ensures
        body_reads_back("Operation:"@ + op + ":"@ + q(a) + ":"@ + q(b) + ":"@ + q(c)),
{
    let z = "Operation:"@ + op + ":"@ + q(a) + ":"@ + q(b) + ":"@ + q(c);
    assert forall|n: u128| #[trigger] reads_back(line_text(n, z), n as int) by {
        assert forall|cl: int| #![trigger decode_instruction(line_text(n, z), cl)]
            decode_instruction(line_text(n, z), cl) is Ok && decode_instruction(line_text(n, z), cl)->Ok_0.1
                == n as int by {
            lemma_operation_line_read_back(n, op, a, b, c, cl);
        }
    }
}

/// `Print`, `Input`, `Else` and `End` lines read back under any number.
proof fn lemma_simple_bodies(name: Seq<char>)
    ensures
        body_reads_back("Print:"@ + q(name)),
        body_reads_back("Input:"@ + q(name)),
        body_reads_back("Else:"@),
        body_reads_back("End:"@),
{
    let x = "Print:"@ + q(name);
    let y = "Input:"@ + q(name);
    assert forall|n: u128| #[trigger] reads_back(line_text(n, x), n as int) by {
        assert forall|cl: int| #![trigger decode_instruction(line_text(n, x), cl)]
            decode_instruction(line_text(n, x), cl) is Ok && decode_instruction(line_text(n, x), cl)->Ok_0.1
                == n as int by {
            lemma_simple_lines_read_back(n, name, cl);
        }
    }
    assert forall|n: u128| #[trigger] reads_back(line_text(n, y), n as int) by {
        assert forall|cl: int| #![trigger decode_instruction(line_text(n, y), cl)]
            decode_instruction(line_text(n, y), cl) is Ok && decode_instruction(line_text(n, y), cl)->Ok_0.1
                == n as int by {
            lemma_simple_lines_read_back(n, name, cl);
        }
    }
    assert forall|n: u128| #[trigger] reads_back(line_text(n, "Else:"@), n as int) by {
        assert forall|cl: int| #![trigger decode_instruction(line_text(n, "Else:"@), cl)]
            decode_instruction(line_text(n, "Else:"@), cl) is Ok && decode_instruction(line_text(n, "Else:"@), cl)->Ok_0.1
                == n as int by {
            lemma_simple_lines_read_back(n, name, cl);
        }
    }
    assert forall|n: u128| #[trigger] reads_back(line_text(n, "End:"@), n as int) by {
        assert forall|cl: int| #![trigger decode_instruction(line_text(n, "End:"@), cl)]
            decode_instruction(line_text(n, "End:"@), cl) is Ok && decode_instruction(line_text(n, "End:"@), cl)->Ok_0.1
                == n as int by {
            lemma_simple_lines_read_back(n, name, cl);
        }
    }
}

/// The `If` line on a name without colons, and the `GoTo` line, read back
/// under any number while their targets are still to be written.
proof fn lemma_jump_bodies(name: Seq<char>)
    requires
        colon_free(name),
    ensures
        body_reads_back("If:"@ + q(name) + ":"@ + pad("0"@)),
        body_reads_back("GoTo:"@ + pad("0"@)),
{
    reveal_strlit("0");
    reveal_strlit(":");
    reveal_strlit("If:");
    reveal_strlit(":If:");
    reveal_strlit("GoTo:");
    reveal_strlit(":GoTo:");
    assert(decimal_text(0) == seq!['0']);
    let x = "If:"@ + q(name) + ":"@ + pad("0"@);
    let y = "GoTo:"@ + pad("0"@);
    assert forall|n: u128| #[trigger] reads_back(line_text(n, x), n as int) by {
        let c = (0int, n as int, name);
        assert(line_text(n, x) =~= if_text(c, 0));
        assert forall|cl: int| #![trigger decode_instruction(line_text(n, x), cl)]
            decode_instruction(line_text(n, x), cl) is Ok && decode_instruction(line_text(n, x), cl)->Ok_0.1
                == n as int by {
            lemma_if_line_read_back(c, 0, cl);
        }
    }
    assert forall|n: u128| #[trigger] reads_back(line_text(n, y), n as int) by {
        assert(line_text(n, y) =~= goto_text(n as int, 0));
        assert forall|cl: int| #![trigger decode_instruction(line_text(n, y), cl)]
            decode_instruction(line_text(n, y), cl) is Ok && decode_instruction(line_text(n, y), cl)->Ok_0.1
                == n as int by {
            lemma_goto_line_read_back(n as int, 0, cl);
        }
    }
}

/// Lines numbered by their places, each of which but the header reads back,
/// as long as the number of the last line is below the largest `u128`.
pub open spec fn readable(g: GenState) -> bool {
    &&& numbered(g)
    &&& g.line < u128::MAX ==> decodes(g)
}

/// A line written with an instruction that reads back keeps the state
/// readable.
proof fn lemma_emit_readable(g: GenState, body: Seq<char>)
    requires
        readable(g),
        body_reads_back(body),
    ensures
        readable(emit(g, body)),
        emit(g, body).line == g.line + 1,
{
    let e = emit(g, body);
    let l = g.line + 1;
    reveal_strlit(":");
    assert forall|i: int| 0 <= i < e.lines.len() implies (decimal_text(i as nat) + ":"@).is_prefix_of(
        #[trigger] e.lines[i],
    ) by {
        if i < g.lines.len() {
            assert(e.lines[i] == g.lines[i]);
        } else {
            let p = decimal_text(i as nat) + ":"@;
            assert(e.lines[i].subrange(0, p.len() as int) =~= p);
        }
    }
    if e.line < u128::MAX {
        let n = l as u128;
        assert(reads_back(line_text(n, body), n as int));
        assert(e.lines[l] =~= line_text(n, body));
        assert forall|i: int| 1 <= i < e.lines.len() implies #[trigger] reads_back(e.lines[i], i) by {
            if i < g.lines.len() {
                assert(e.lines[i] == g.lines[i]);
            }
        }
    }
}

/// A line rewritten with its own number and an instruction that reads back
/// under that number keeps the state readable.
proof fn lemma_rewrite_readable(g: GenState, at: int, text: Seq<char>)
    requires
        readable(g),
        1 <= at < g.lines.len(),
        (decimal_text(at as nat) + ":"@).is_prefix_of(text),
        g.line < u128::MAX ==> reads_back(text, at),
    ensures
        readable(rewrite(g, at, text)),
{
    lemma_rewrite_numbered(g, at, text);
    let e = rewrite(g, at, text);
    if g.line < u128::MAX {
        assert forall|i: int| 1 <= i < e.lines.len() implies #[trigger] reads_back(e.lines[i], i) by {
            if i != at {
                assert(e.lines[i] == g.lines[i]);
            }
        }
    }
}

/// The `If` line at the place of its number, given a target up to the
/// line after the last, keeps the state readable.
proof fn lemma_rewrite_if_readable(g: GenState, c: (int, int, Seq<char>), target: int)
    requires
        readable(g),
        c.0 == c.1,
        1 <= c.0 < g.lines.len(),
        colon_free(c.2),
        0 <= target <= g.line + 1,
    ensures
        readable(rewrite(g, c.0, if_text(c, target))),
{
    reveal_strlit(":If:");
    reveal_strlit(":");
    let t = if_text(c, target);
    let p = decimal_text(c.0 as nat) + ":"@;
    assert(t.subrange(0, p.len() as int) =~= p);
    if g.line < u128::MAX {
        assert forall|cl: int| #![trigger decode_instruction(t, cl)]
            decode_instruction(t, cl) is Ok && decode_instruction(t, cl)->Ok_0.1 == c.0 by {
            lemma_if_line_read_back(c, target as u128, cl);
        }
    }
    lemma_rewrite_readable(g, c.0, t);
}

/// `GoTo` lines at the places of their numbers, given a target up to the
/// line after the last, keep the state readable.
proof fn lemma_patch_readable(g: GenState, gotos: Seq<(int, int)>, target: int)
    requires
        readable(g),
        forall|k: int| 0 <= k < gotos.len() ==> 1 <= (#[trigger] gotos[k]).0 < g.lines.len() && gotos[k].0 == gotos[k].1,
        0 <= target <= g.line + 1,
    ensures
        readable(GenState { lines: patch_gotos(g.lines, gotos, target), counter: g.counter, line: g.line, stack: g.stack }),
    decreases gotos.len(),
{
    if gotos.len() > 0 {
        let at = gotos[0].0;
        let t = goto_text(at, target);
        reveal_strlit(":GoTo:");
        reveal_strlit(":");
        let p = decimal_text(at as nat) + ":"@;
        assert(t.subrange(0, p.len() as int) =~= p);
        if g.line < u128::MAX {
            assert forall|cl: int| #![trigger decode_instruction(t, cl)]
                decode_instruction(t, cl) is Ok && decode_instruction(t, cl)->Ok_0.1 == at by {
                lemma_goto_line_read_back(at, target as u128, cl);
            }
        }
        lemma_rewrite_readable(g, at, t);
        let g1 = rewrite(g, at, t);
        assert forall|k: int| 0 <= k < gotos.drop_first().len() implies 1 <= (
        #[trigger] gotos.drop_first()[k]).0 < g1.lines.len() && gotos.drop_first()[k].0 == gotos.drop_first()[k].1 by {
            assert(gotos.drop_first()[k] == gotos[k + 1]);
        }
        lemma_patch_readable(g1, gotos.drop_first(), target);
    }
}

/// A state with the same lines is as readable.
proof fn lemma_same_lines(g: GenState, h: GenState)
    requires
        readable(g),
        h.lines == g.lines,
        h.line == g.line,
    ensures
        readable(h),
{
}

/// A temporary name holds no colon.
proof fn lemma_fresh_name(g: GenState)
    ensures
        colon_free(fresh(g).1),
        readable(g) ==> readable(fresh(g).0),
{
    lemma_names_colon_free((g.counter + 1) as nat, 0, Seq::empty());
    if readable(g) {
        lemma_same_lines(g, fresh(g).0);
    }
}

/// A converted temporary keeps the state readable.
proof fn lemma_converted_readable(g: GenState, ty: Seq<char>, zero: Seq<char>, from: Seq<char>)
    requires
        readable(g),
        colon_free(ty),
    ensures
        readable(converted(g, ty, zero, from).0),
        converted(g, ty, zero, from).0.line == g.line + 2,
        colon_free(converted(g, ty, zero, from).1),
{
    let (g1, tmp) = fresh(g);
    lemma_fresh_name(g);
    lemma_assign_body(ty, tmp, zero);
    let a = "Assign:"@ + ty + ":"@ + q(tmp) + ":"@ + zero;
    lemma_emit_readable(g1, a);
    lemma_convert_body(ty, tmp, from);
    lemma_emit_readable(emit(g1, a), "Convert:"@ + ty + ":"@ + q(tmp) + ":"@ + q(from));
}

/// A temporary holding an operation keeps the state readable.
proof fn lemma_operated_readable(
    g: GenState,
    ty: Seq<char>,
    zero: Seq<char>,
    op: Seq<char>,
    a: Seq<char>,
    b: Seq<char>,
)
    requires
        readable(g),
        colon_free(ty),
        colon_free(op),
        colon_free(a),
    ensures
        readable(operated(g, ty, zero, op, a, b).0),
        operated(g, ty, zero, op, a, b).0.line == g.line + 2,
        colon_free(operated(g, ty, zero, op, a, b).1),
{
    let (g1, tmp) = fresh(g);
    lemma_fresh_name(g);
    lemma_assign_body(ty, tmp, zero);
    let x = "Assign:"@ + ty + ":"@ + q(tmp) + ":"@ + zero;
    lemma_emit_readable(g1, x);
    lemma_operation_body(op, tmp, a, b);
    lemma_emit_readable(emit(g1, x), "Operation:"@ + op + ":"@ + q(tmp) + ":"@ + q(a) + ":"@ + q(b));
}

/// Every variable that the expression names has a name without colons.
pub open spec fn expr_names(n: OperationNodeView) -> bool
    decreases n,
{
    &&& match n.value {
        Some(t) => n.operator is None && t.token_type == TokenType::Variable ==> colon_free(t.value),
        None => true,
    }
    &&& match n.left {
        Some(l) => expr_names(*l),
        None => true,
    }
    &&& match n.right {
        Some(r) => expr_names(*r),
        None => true,
    }
}

/// The literal lines of a temporary read back under any number.
proof fn lemma_literal_bodies(tmp: Seq<char>, value: Seq<char>)
    requires
        colon_free(tmp),
    ensures
        body_reads_back("Assign:bool:"@ + q(tmp) + ":True"@),
        body_reads_back("Assign:bool:"@ + q(tmp) + ":False"@),
        body_reads_back("Assign:int:"@ + q(tmp) + ":"@ + value),
        body_reads_back("Assign:double:"@ + q(tmp) + ":"@ + value),
        body_reads_back("Assign:char:"@ + q(tmp) + ":'"@ + value + "'"@),
        body_reads_back("Assign:string:"@ + q(tmp) + ":"@ + q(value)),
{
    lemma_words_colon_free();
    reveal_strlit("Assign:");
    reveal_strlit(":");
    reveal_strlit("Assign:bool:");
    reveal_strlit("Assign:int:");
    reveal_strlit("Assign:double:");
    reveal_strlit("Assign:char:");
    reveal_strlit("Assign:string:");
    reveal_strlit(":True");
    reveal_strlit("True");
    reveal_strlit(":False");
    reveal_strlit("False");
    reveal_strlit(":'");
    reveal_strlit("'");
    reveal_strlit("bool");
    reveal_strlit("int");
    reveal_strlit("double");
    reveal_strlit("char");
    reveal_strlit("string");
    lemma_assign_body("bool"@, tmp, "True"@);
    assert("Assign:bool:"@ + q(tmp) + ":True"@ =~= "Assign:"@ + "bool"@ + ":"@ + q(tmp) + ":"@ + "True"@);
    lemma_assign_body("bool"@, tmp, "False"@);
    assert("Assign:bool:"@ + q(tmp) + ":False"@ =~= "Assign:"@ + "bool"@ + ":"@ + q(tmp) + ":"@ + "False"@);
    lemma_assign_body("int"@, tmp, value);
    assert("Assign:int:"@ + q(tmp) + ":"@ + value =~= "Assign:"@ + "int"@ + ":"@ + q(tmp) + ":"@ + value);
    lemma_assign_body("double"@, tmp, value);
    assert("Assign:double:"@ + q(tmp) + ":"@ + value =~= "Assign:"@ + "double"@ + ":"@ + q(tmp) + ":"@ + value);
    lemma_assign_body("char"@, tmp, "'"@ + value + "'"@);
    assert("Assign:char:"@ + q(tmp) + ":'"@ + value + "'"@ =~= "Assign:"@ + "char"@ + ":"@ + q(tmp) + ":"@ + (
    "'"@ + value + "'"@));
    lemma_assign_body("string"@, tmp, q(value));
    assert("Assign:string:"@ + q(tmp) + ":"@ + q(value) =~= "Assign:"@ + "string"@ + ":"@ + q(tmp) + ":"@ + q(
        value,
    ));
}

/// The byte code of a leaf keeps the state readable, and names its value
/// without colons.
proof fn lemma_leaf_readable(g: GenState, t: TokenView)
    requires
        readable(g),
    ensures
        readable(gen_leaf(g, t).0),
        gen_leaf(g, t).0.line >= g.line,
        gen_leaf(g, t).1 is Ok && (t.token_type == TokenType::Variable ==> colon_free(t.value)) ==> colon_free(
            gen_leaf(g, t).1->Ok_0.0,
        ),
{
    reveal(gen_leaf);
    let kind = t.token_type;
    if kind == TokenType::True || kind == TokenType::False || kind == TokenType::IntNumber || kind
        == TokenType::DoubleNumber || kind == TokenType::Character || kind
        == TokenType::StringSequence {
        let (g1, tmp) = fresh(g);
        lemma_fresh_name(g);
        let body = if kind == TokenType::True {
            "Assign:bool:"@ + q(tmp) + ":True"@
        } else if kind == TokenType::False {
            "Assign:bool:"@ + q(tmp) + ":False"@
        } else if kind == TokenType::IntNumber {
            "Assign:int:"@ + q(tmp) + ":"@ + t.value
        } else if kind == TokenType::DoubleNumber {
            "Assign:double:"@ + q(tmp) + ":"@ + t.value
        } else if kind == TokenType::Character {
            "Assign:char:"@ + q(tmp) + ":'"@ + escaped(t.value, false) + "'"@
        } else {
            "Assign:string:"@ + q(tmp) + ":"@ + q(escaped(t.value, true))
        };
        if kind == TokenType::Character {
            lemma_literal_bodies(tmp, escaped(t.value, false));
        } else if kind == TokenType::StringSequence {
            lemma_literal_bodies(tmp, escaped(t.value, true));
        } else {
            lemma_literal_bodies(tmp, t.value);
        }
        lemma_emit_readable(g1, body);
    } else if kind == TokenType::Variable {
        let index = match scope_index(g.stack, t.value) {
            Some(i) => i,
            None => arbitrary(),
        };
        lemma_names_colon_free(0, index, t.value);
    }
}

/// The byte code of an operation of typed operands keeps the state
/// readable, and names its value without colons.
#[verifier::rlimit(40)]
proof fn lemma_typed_readable(
    g: GenState,
    op: OperatorType,
    ln: Seq<char>,
    lt: TokenType,
    rn: Seq<char>,
    rt: TokenType,
    n: OperationNodeView,
)
    requires
        readable(g),
        colon_free(ln),
        colon_free(rn),
    ensures
        readable(gen_typed(g, op, ln, lt, rn, rt, n).0),
        gen_typed(g, op, ln, lt, rn, rt, n).0.line >= g.line,
        gen_typed(g, op, ln, lt, rn, rt, n).1 is Ok ==> colon_free(gen_typed(g, op, ln, lt, rn, rt, n).1->Ok_0.0),
{
    reveal(gen_typed);
    lemma_words_colon_free();
    let name = operator_name(op);
    if lt == TokenType::DoubleNumber || rt == TokenType::DoubleNumber {
        let (g1, first, second) = if lt == TokenType::IntNumber {
            lemma_converted_readable(g, "double"@, "0"@, ln);
            let (g1, t) = converted(g, "double"@, "0"@, ln);
            (g1, t, rn)
        } else if rt == TokenType::IntNumber {
            lemma_converted_readable(g, "double"@, "0"@, rn);
            let (g1, t) = converted(g, "double"@, "0"@, rn);
            (g1, ln, t)
        } else {
            (g, ln, rn)
        };
        if is_arithmetic(op) {
            lemma_operated_readable(g1, "double"@, "0"@, name, first, second);
        } else {
            lemma_operated_readable(g1, "bool"@, "False"@, name, first, second);
        }
    } else if lt == TokenType::IntNumber || rt == TokenType::IntNumber {
        if is_arithmetic(op) && op != OperatorType::Div {
            lemma_operated_readable(g, "int"@, "0"@, name, ln, rn);
        } else if op == OperatorType::Div {
            lemma_converted_readable(g, "double"@, "0"@, ln);
            let (g1, first) = converted(g, "double"@, "0"@, ln);
            lemma_converted_readable(g1, "double"@, "0"@, rn);
            let (g2, second) = converted(g1, "double"@, "0"@, rn);
            lemma_operated_readable(g2, "double"@, "0"@, "Div"@, first, second);
        } else {
            lemma_operated_readable(g, "bool"@, "False"@, name, ln, rn);
        }
    } else if lt == TokenType::StringSequence || rt == TokenType::StringSequence {
        if lt == TokenType::Character {
            lemma_converted_readable(g, "string"@, "\"\""@, ln);
            let (g1, first) = converted(g, "string"@, "\"\""@, ln);
            lemma_operated_readable(g1, "string"@, "\"\""@, "Plus"@, first, rn);
        } else if rt == TokenType::Character {
            lemma_converted_readable(g, "string"@, "\"\""@, rn);
            let (g1, second) = converted(g, "string"@, "\"\""@, rn);
            lemma_operated_readable(g1, "string"@, "\"\""@, "Plus"@, ln, second);
        } else {
            lemma_operated_readable(g, "string"@, "\"\""@, "Plus"@, ln, rn);
        }
    } else if lt == TokenType::Character || rt == TokenType::Character {
        lemma_converted_readable(g, "string"@, "\"\""@, ln);
        let (g1, first) = converted(g, "string"@, "\"\""@, ln);
        lemma_converted_readable(g1, "string"@, "\"\""@, rn);
        let (g2, second) = converted(g1, "string"@, "\"\""@, rn);
        lemma_operated_readable(g2, "string"@, "\"\""@, "Plus"@, first, second);
    } else if lt == TokenType::Bool || lt == TokenType::True || lt == TokenType::False || rt
        == TokenType::Bool || rt == TokenType::True || rt == TokenType::False {
        lemma_operated_readable(g, "bool"@, "False"@, name, ln, rn);
    }
}

/// The byte code of an operation node keeps the state readable, and names
/// its value without colons.
proof fn lemma_operation_readable(
    g: GenState,
    op: OperatorType,
    ln: Seq<char>,
    lt: TokenType,
    rn: Seq<char>,
    rt: TokenType,
    n: OperationNodeView,
)
    requires
        readable(g),
        colon_free(ln),
        colon_free(rn),
    ensures
        readable(gen_operation(g, op, ln, lt, rn, rt, n).0),
        gen_operation(g, op, ln, lt, rn, rt, n).0.line >= g.line,
        gen_operation(g, op, ln, lt, rn, rt, n).1 is Ok ==> colon_free(
            gen_operation(g, op, ln, lt, rn, rt, n).1->Ok_0.0,
        ),
{
    reveal(gen_operation);
    if op == OperatorType::Convert {
        lemma_words_colon_free();
        let (g1, read) = fresh(g);
        lemma_fresh_name(g);
        lemma_literal_bodies(read, Seq::empty());
        reveal_strlit("\"\"");
        reveal_strlit("\"");
        assert(q(Seq::empty()) =~= "\"\""@);
        let g2 = emit(g1, "Assign:string:"@ + q(read) + ":"@ + "\"\""@);
        lemma_emit_readable(g1, "Assign:string:"@ + q(read) + ":"@ + "\"\""@);
        lemma_simple_bodies(read);
        let g3 = emit(g2, "Input:"@ + q(read));
        lemma_emit_readable(g2, "Input:"@ + q(read));
        let (g4, t) = fresh(g3);
        lemma_fresh_name(g3);
        match convert_target(value_of(n).token_type) {
            Some((ty, zero, rtype)) => {
                lemma_assign_body(ty, t, zero);
                let g5 = emit(g4, "Assign:"@ + ty + ":"@ + q(t) + ":"@ + zero);
                lemma_emit_readable(g4, "Assign:"@ + ty + ":"@ + q(t) + ":"@ + zero);
                lemma_convert_body(ty, t, read);
                lemma_emit_readable(g5, "Convert:"@ + ty + ":"@ + q(t) + ":"@ + q(read));
            },
            None => {
                lemma_typed_readable(g4, op, ln, lt, rn, rt, n);
            },
        }
    } else {
        lemma_typed_readable(g, op, ln, lt, rn, rt, n);
    }
}

/// The byte code of an expression whose variables have names without
/// colons keeps the state readable, and names its value without colons.
proof fn lemma_expr_readable(g: GenState, n: OperationNodeView)
    requires
        readable(g),
        has_values(n),
        expr_names(n),
    ensures
        readable(gen_expr(g, n).0),
        gen_expr(g, n).0.line >= g.line,
        gen_expr(g, n).1 is Ok ==> colon_free(gen_expr(g, n).1->Ok_0.0),
    decreases n,
{
    match n.operator {
        None => lemma_leaf_readable(g, value_of(n)),
        Some(op) => {
            match n.left {
                Some(l) => lemma_expr_readable(g, *l),
                None => {},
            }
            let (g1, lres) = match n.left {
                Some(l) => gen_expr(g, *l),
                None => (g, Ok((Seq::empty(), TokenType::BadToken))),
            };
            match lres {
                Err(m) => {},
                Ok((ln, lt)) => {
                    match n.right {
                        Some(r) => lemma_expr_readable(g1, *r),
                        None => {},
                    }
                    let (g2, rres) = match n.right {
                        Some(r) => gen_expr(g1, *r),
                        None => (g1, Ok((Seq::empty(), TokenType::BadToken))),
                    };
                    match rres {
                        Err(m) => {},
                        Ok((rn, rt)) => {
                            if !(n.left is Some && n.right is None) && !(n.right is Some && n.left is None) {
                                lemma_operation_readable(g2, op, ln, lt, rn, rt, n);
                            }
                        },
                    }
                },
            }
        },
    }
}

/// The definition of a variable whose name holds no colon keeps the state
/// readable.
proof fn lemma_assign_readable(g: GenState, name: Seq<char>, ty: Seq<char>, zero: Seq<char>, from: Seq<char>)
    requires
        readable(g),
        colon_free(name),
        colon_free(ty),
    ensures
        readable(gen_assign(g, name, ty, zero, from).0),
        gen_assign(g, name, ty, zero, from).0.line >= g.line,
{
    match scope_index(g.stack, name) {
        None => {},
        Some(i) => {
            let vn = scoped_name(i, name);
            lemma_names_colon_free(0, i, name);
            lemma_assign_body(ty, vn, zero);
            let a = "Assign:"@ + ty + ":"@ + q(vn) + ":"@ + zero;
            lemma_emit_readable(g, a);
            lemma_convert_body(ty, vn, from);
            lemma_emit_readable(emit(g, a), "Convert:"@ + ty + ":"@ + q(vn) + ":"@ + q(from));
        },
    }
}

/// A definition keeps the state readable.
proof fn lemma_definition_readable(g: GenState, kind: StatementType, name: TokenView, left: OperationNodeView)
    requires
        readable(g),
        colon_free(name.value),
        has_values(left),
        expr_names(left),
    ensures
        readable(gen_definition(g, kind, name, left).0),
        gen_definition(g, kind, name, left).0.line >= g.line,
{
    lemma_words_colon_free();
    let (t, ty, zero) = definition_target(kind);
    let g1 = gen_store(g, fresh_variable(name.value, t));
    lemma_same_lines(g, g1);
    lemma_expr_readable(g1, left);
    let (g2, r) = gen_expr(g1, left);
    match r {
        Err(m) => {},
        Ok((from, _)) => lemma_assign_readable(g2, name.value, ty, zero, from),
    }
}

/// A variable defined with the type of its value keeps the state readable.
proof fn lemma_inferred_readable(g: GenState, name: Seq<char>, from: Seq<char>, t: TokenType)
    requires
        readable(g),
        colon_free(name),
    ensures
        readable(gen_inferred(g, name, from, t).0),
        gen_inferred(g, name, from, t).0.line >= g.line,
{
    lemma_words_colon_free();
    match inferred_target(t) {
        None => {},
        Some((vt, ty, zero)) => {
            let g1 = gen_store(g, fresh_variable(name, vt));
            lemma_same_lines(g, g1);
            lemma_assign_readable(g1, name, ty, zero, from);
        },
    }
}

/// `var x = e` keeps the state readable.
proof fn lemma_var_readable(g: GenState, name: TokenView, left: OperationNodeView)
    requires
        readable(g),
        colon_free(name.value),
        has_values(left),
        expr_names(left),
    ensures
        readable(gen_var(g, name, left).0),
        gen_var(g, name, left).0.line >= g.line,
{
    lemma_expr_readable(g, left);
    let (g1, r) = gen_expr(g, left);
    match r {
        Err(m) => {},
        Ok((from, t)) => lemma_inferred_readable(g1, name.value, from, t),
    }
}

/// An assignment to a defined variable keeps the state readable.
#[verifier::rlimit(40)]
proof fn lemma_update_readable(g: GenState, vt: TokenType, vn: Seq<char>, op: TokenType, from: Seq<char>, t: TokenType)
    requires
        readable(g),
        colon_free(vn),
        colon_free(from),
    ensures
        readable(gen_update(g, vt, vn, op, from, t)),
        gen_update(g, vt, vn, op, from, t).line >= g.line,
{
    lemma_words_colon_free();
    if vt == TokenType::Bool {
        lemma_convert_body("bool"@, vn, from);
        lemma_emit_readable(g, "Convert:"@ + "bool"@ + ":"@ + q(vn) + ":"@ + q(from));
    } else if vt == TokenType::Int {
        let (g1, left) = if t == TokenType::DoubleNumber {
            lemma_converted_readable(g, "int"@, "0"@, from);
            converted(g, "int"@, "0"@, from)
        } else {
            (g, from)
        };
        if op == TokenType::PlusEqual || op == TokenType::MinusEqual || op == TokenType::MulEqual || op
            == TokenType::ModEqual {
            lemma_operation_body(compound_operator(op), vn, vn, left);
            lemma_emit_readable(g1, "Operation:"@ + compound_operator(op) + ":"@ + q(vn) + ":"@ + q(vn) + ":"@ + q(left));
        } else if op == TokenType::DivEqual {
            lemma_converted_readable(g1, "double"@, "0"@, left);
            let (g2, first) = converted(g1, "double"@, "0"@, left);
            lemma_converted_readable(g2, "double"@, "0"@, vn);
            let (g3, second) = converted(g2, "double"@, "0"@, vn);
            reveal_strlit("Operation:Mod:");
            reveal_strlit("Operation:");
            reveal_strlit("Mod");
            reveal_strlit(":");
            lemma_operation_body("Mod"@, vn, second, first);
            assert("Operation:Mod:"@ + q(vn) + ":"@ + q(second) + ":"@ + q(first) =~= "Operation:"@ + "Mod"@ + ":"@
                + q(vn) + ":"@ + q(second) + ":"@ + q(first));
            lemma_emit_readable(g3, "Operation:Mod:"@ + q(vn) + ":"@ + q(second) + ":"@ + q(first));
        } else {
            lemma_convert_body("int"@, vn, left);
            lemma_emit_readable(g1, "Convert:"@ + "int"@ + ":"@ + q(vn) + ":"@ + q(left));
        }
    } else if vt == TokenType::Double {
        let (g1, left) = if t == TokenType::IntNumber {
            lemma_converted_readable(g, "double"@, "0"@, from);
            converted(g, "double"@, "0"@, from)
        } else {
            (g, from)
        };
        if op == TokenType::PlusEqual || op == TokenType::MinusEqual || op == TokenType::MulEqual || op
            == TokenType::DivEqual || op == TokenType::ModEqual {
            lemma_operation_body(compound_operator(op), vn, vn, left);
            lemma_emit_readable(g1, "Operation:"@ + compound_operator(op) + ":"@ + q(vn) + ":"@ + q(vn) + ":"@ + q(left));
        } else {
            lemma_convert_body("double"@, vn, left);
            lemma_emit_readable(g1, "Convert:"@ + "double"@ + ":"@ + q(vn) + ":"@ + q(left));
        }
    } else if vt == TokenType::Char {
        lemma_convert_body("char"@, vn, from);
        lemma_emit_readable(g, "Convert:"@ + "char"@ + ":"@ + q(vn) + ":"@ + q(from));
    } else if vt == TokenType::String {
        let (g1, left) = if t == TokenType::Character {
            lemma_converted_readable(g, "string"@, "\"\""@, from);
            converted(g, "string"@, "\"\""@, from)
        } else {
            (g, from)
        };
        if op == TokenType::PlusEqual {
            lemma_operation_body("Plus"@, vn, vn, left);
            lemma_emit_readable(g1, "Operation:"@ + "Plus"@ + ":"@ + q(vn) + ":"@ + q(vn) + ":"@ + q(left));
        } else {
            lemma_convert_body("string"@, vn, left);
            lemma_emit_readable(g1, "Convert:"@ + "string"@ + ":"@ + q(vn) + ":"@ + q(left));
        }
    }
}

/// An assignment `x op e` keeps the state readable.
proof fn lemma_assignment_readable(g: GenState, name: TokenView, op: TokenView, left: OperationNodeView)
    requires
        readable(g),
        colon_free(name.value),
        has_values(left),
        expr_names(left),
    ensures
        readable(gen_assignment(g, name, op, left).0),
        gen_assignment(g, name, op, left).0.line >= g.line,
{
    lemma_expr_readable(g, left);
    let (g1, r) = gen_expr(g, left);
    match r {
        Err(m) => {},
        Ok((from, t)) => match find_variable(g1.stack, name.value) {
            Some(v) => {
                let vt = match v.variable_type {
                    Some(x) => x,
                    None => arbitrary(),
                };
                let i = match scope_index(g1.stack, name.value) {
                    Some(k) => k,
                    None => arbitrary(),
                };
                lemma_names_colon_free(0, i, name.value);
                lemma_update_readable(g1, vt, scoped_name(i, name.value), op.token_type, from, t);
            },
            None => lemma_inferred_readable(g1, name.value, from, t),
        },
    }
}

/// `print(x)` keeps the state readable.
proof fn lemma_print_readable(g: GenState, v: TokenView)
    requires
        readable(g),
    ensures
        readable(gen_print(g, v).0),
        gen_print(g, v).0.line >= g.line,
{
    lemma_leaf_readable(g, v);
    let (g1, r) = gen_leaf(g, v);
    match r {
        Err(m) => {},
        Ok((name, _)) => {
            lemma_simple_bodies(name);
            lemma_emit_readable(g1, "Print:"@ + q(name));
        },
    }
}

/// Every variable that the statement defines, assigns or reads in an
/// expression has a name without colons.
pub open spec fn statement_names(st: StatementNode) -> bool
    decreases st, 0int,
{
    match st.statement_type {
        Some(StatementType::DefineBool) => match st.define_bool_statement {
            Some(d) => colon_free(token_of(d.name).value) && expr_names(tree_of(d.left)),
            None => true,
        },
        Some(StatementType::DefineInt) => match st.define_int_statement {
            Some(d) => colon_free(token_of(d.name).value) && expr_names(tree_of(d.left)),
            None => true,
        },
        Some(StatementType::DefineDouble) => match st.define_double_statement {
            Some(d) => colon_free(token_of(d.name).value) && expr_names(tree_of(d.left)),
            None => true,
        },
        Some(StatementType::DefineChar) => match st.define_char_statement {
            Some(d) => colon_free(token_of(d.name).value) && expr_names(tree_of(d.left)),
            None => true,
        },
        Some(StatementType::DefineString) => match st.define_string_statement {
            Some(d) => colon_free(token_of(d.name).value) && expr_names(tree_of(d.left)),
            None => true,
        },
        Some(StatementType::DefineVar) => match st.define_var_statement {
            Some(d) => colon_free(token_of(d.name).value) && expr_names(tree_of(d.left)),
            None => true,
        },
        Some(StatementType::DefineVariable) => match st.define_variable_statement {
            Some(d) => colon_free(token_of(d.name).value) && expr_names(tree_of(d.left)),
            None => true,
        },
        Some(StatementType::DefineIf) => match st.define_if_statement {
            Some(ifs) => if_names(ifs),
            None => true,
        },
        _ => true,
    }
}

/// The names of the statements of a block from the `i`-th on hold no colon.
pub open spec fn block_names(b: StatementsNode, i: int) -> bool
    decreases b, b.statements@.len() - i,
{
    if i < 0 || i >= b.statements@.len() {
        true
    } else {
        statement_names(b.statements[i]) && block_names(b, i + 1)
    }
}

/// The names of a condition and its block hold no colon.
pub open spec fn branch_names(condition: OperationNodeView, body: StatementsNode) -> bool
    decreases body, body.statements@.len() + 1,
{
    expr_names(condition) && block_names(body, 0)
}

/// The names of an `if` statement hold no colon.
pub open spec fn if_names(ifs: DefineIfStatementNode) -> bool
    decreases ifs, ifs.define_if_else_nodes@.len() + 2,
{
    &&& match ifs.define_if_node {
        Some(n) => branch_names(tree_of(n.condition), n.statements),
        None => true,
    }
    &&& else_ifs_names(ifs, 0)
    &&& match ifs.define_else_node {
        Some(e) => block_names(e.statements, 0),
        None => true,
    }
}

/// The names of the `else if` parts from the `j`-th on hold no colon.
pub open spec fn else_ifs_names(ifs: DefineIfStatementNode, j: int) -> bool
    decreases ifs, ifs.define_if_else_nodes@.len() - j,
{
    if j < 0 || j >= ifs.define_if_else_nodes@.len() {
        true
    } else {
        let n = ifs.define_if_else_nodes[j];
        branch_names(tree_of(n.condition), n.statements) && else_ifs_names(ifs, j + 1)
    }
}

/// `If` lines still to be given their targets: each at the place of its
/// number, after the header, on a condition held in a name without colons.
pub open spec fn pending_ifs(conds: Seq<(int, int, Seq<char>)>, g: GenState) -> bool {
    forall|k: int|
        0 <= k < conds.len() ==> (#[trigger] conds[k]).0 == conds[k].1 && 1 <= conds[k].0 < g.lines.len()
            && colon_free(conds[k].2)
}

/// `GoTo` lines still to be given their targets, each at the place of its
/// number, after the header.
pub open spec fn pending_gotos(jumps: Seq<(int, int)>, g: GenState) -> bool {
    forall|k: int| 0 <= k < jumps.len() ==> 1 <= (#[trigger] jumps[k]).0 < g.lines.len() && jumps[k].0 == jumps[k].1
}

/// The byte code of a statement keeps the state readable.
proof fn lemma_statement_readable(g: GenState, st: StatementNode)
    requires
        readable(g),
        1 <= g.lines.len(),
        statement_ready(st),
        statement_names(st),
    ensures
        readable(gen_statement(g, st).0),
        gen_statement(g, st).0.line >= g.line,
    decreases st, 0int,
{
    match st.statement_type {
        Some(StatementType::DefineBool) => match st.define_bool_statement {
            Some(d) => lemma_definition_readable(g, StatementType::DefineBool, token_of(d.name), tree_of(d.left)),
            None => {},
        },
        Some(StatementType::DefineInt) => match st.define_int_statement {
            Some(d) => lemma_definition_readable(g, StatementType::DefineInt, token_of(d.name), tree_of(d.left)),
            None => {},
        },
        Some(StatementType::DefineDouble) => match st.define_double_statement {
            Some(d) => lemma_definition_readable(g, StatementType::DefineDouble, token_of(d.name), tree_of(d.left)),
            None => {},
        },
        Some(StatementType::DefineChar) => match st.define_char_statement {
            Some(d) => lemma_definition_readable(g, StatementType::DefineChar, token_of(d.name), tree_of(d.left)),
            None => {},
        },
        Some(StatementType::DefineString) => match st.define_string_statement {
            Some(d) => lemma_definition_readable(g, StatementType::DefineString, token_of(d.name), tree_of(d.left)),
            None => {},
        },
        Some(StatementType::DefineVar) => match st.define_var_statement {
            Some(d) => lemma_var_readable(g, token_of(d.name), tree_of(d.left)),
            None => {},
        },
        Some(StatementType::DefineVariable) => match st.define_variable_statement {
            Some(d) => lemma_assignment_readable(g, token_of(d.name), token_of(d.operator), tree_of(d.left)),
            None => {},
        },
        Some(StatementType::Print) => match st.define_print_statement {
            Some(d) => lemma_print_readable(g, token_of(d.variable)),
            None => {},
        },
        Some(StatementType::DefineIf) => match st.define_if_statement {
            Some(ifs) => lemma_if_readable(g, ifs),
            None => {},
        },
        _ => {},
    }
}

/// The byte code of a block keeps the state readable.
proof fn lemma_block_readable(g: GenState, b: StatementsNode, i: int)
    requires
        readable(g),
        1 <= g.lines.len(),
        block_ready(b, i),
        block_names(b, i),
    ensures
        readable(gen_block(g, b, i).0),
        gen_block(g, b, i).0.line >= g.line,
    decreases b, b.statements@.len() - i,
{
    if 0 <= i < b.statements@.len() {
        lemma_statement_readable(g, b.statements[i]);
        let (g1, e) = gen_statement(g, b.statements[i]);
        if e is None {
            lemma_block_readable(g1, b, i + 1);
        }
    }
}

/// The byte code of a condition and its block keeps the state readable, and
/// leaves its `If` and `GoTo` lines pending.
proof fn lemma_branch_readable(g: GenState, condition: OperationNodeView, body: StatementsNode)
    requires
        readable(g),
        1 <= g.lines.len(),
        has_values(condition),
        block_ready(body, 0),
        branch_names(condition, body),
    ensures
        readable(gen_branch(g, condition, body).0),
        gen_branch(g, condition, body).0.line >= g.line,
        gen_branch(g, condition, body).1 is None ==> pending_ifs(
            seq![gen_branch(g, condition, body).2],
            gen_branch(g, condition, body).0,
        ) && pending_gotos(seq![gen_branch(g, condition, body).3], gen_branch(g, condition, body).0),
    decreases body, body.statements@.len() + 1,
{
    lemma_expr_readable(g, condition);
    let (g1, r) = gen_expr(g, condition);
    match r {
        Err(m) => {},
        Ok((cname, _)) => {
            let g2 = push_scope(g1);
            lemma_same_lines(g1, g2);
            lemma_jump_bodies(cname);
            let g3 = emit(g2, "If:"@ + q(cname) + ":"@ + pad("0"@));
            lemma_emit_readable(g2, "If:"@ + q(cname) + ":"@ + pad("0"@));
            lemma_block_readable(g3, body, 0);
            let (g4, e) = gen_block(g3, body, 0);
            if e is None {
                let g5 = emit(g4, "GoTo:"@ + pad("0"@));
                lemma_emit_readable(g4, "GoTo:"@ + pad("0"@));
                lemma_same_lines(g5, pop_scope(g5));
            }
        },
    }
}

/// The byte code of an `if` statement keeps the state readable.
proof fn lemma_if_readable(g: GenState, ifs: DefineIfStatementNode)
    requires
        readable(g),
        1 <= g.lines.len(),
        if_ready(ifs),
        if_names(ifs),
    ensures
        readable(gen_if(g, ifs).0),
        gen_if(g, ifs).0.line >= g.line,
    decreases ifs, ifs.define_if_else_nodes@.len() + 2,
{
    match ifs.define_if_node {
        None => {},
        Some(n) => {
            lemma_branch_readable(g, tree_of(n.condition), n.statements);
            let (g1, e, c, jump) = gen_branch(g, tree_of(n.condition), n.statements);
            if e is None {
                lemma_if_rest_readable(g1, ifs, seq![c], seq![jump]);
            }
        },
    }
}

/// The byte code of the `else if` and `else` parts keeps the state
/// readable.
proof fn lemma_if_rest_readable(
    g: GenState,
    ifs: DefineIfStatementNode,
    conds: Seq<(int, int, Seq<char>)>,
    jumps: Seq<(int, int)>,
)
    requires
        readable(g),
        1 <= g.lines.len(),
        if_ready(ifs),
        if_names(ifs),
        conds.len() > 0,
        pending_ifs(conds, g),
        pending_gotos(jumps, g),
    ensures
        readable(gen_if_rest(g, ifs, conds, jumps).0),
        gen_if_rest(g, ifs, conds, jumps).0.line >= g.line,
    decreases ifs, ifs.define_if_else_nodes@.len() + 1,
{
    lemma_else_ifs_readable(g, ifs, 0, conds, jumps);
    let (g1, e, conds1, jumps1) = gen_else_ifs(g, ifs, 0, conds, jumps);
    if e is None {
        let last = conds1.last();
        assert(last == conds1[conds1.len() - 1]);
        match ifs.define_else_node {
            Some(en) => {
                let g2 = push_scope(g1);
                lemma_same_lines(g1, g2);
                lemma_rewrite_if_readable(g2, last, g2.line + 1);
                let g3 = rewrite(g2, last.0, if_text(last, g2.line + 1));
                lemma_simple_bodies(Seq::empty());
                let g4 = emit(g3, "Else:"@);
                lemma_emit_readable(g3, "Else:"@);
                lemma_block_readable(g4, en.statements, 0);
                let (g5, e5) = gen_block(g4, en.statements, 0);
                if e5 is None {
                    let g6 = pop_scope(g5);
                    lemma_same_lines(g5, g6);
                    lemma_patch_readable(g6, jumps1, g6.line + 1);
                }
            },
            None => {
                lemma_rewrite_if_readable(g1, last, g1.line + 1);
                let g2 = rewrite(g1, last.0, if_text(last, g1.line + 1));
                lemma_patch_readable(g2, jumps1, g2.line + 1);
            },
        }
    }
}

/// The byte code of the `else if` parts from the `j`-th on keeps the state
/// readable, and leaves the `If` and `GoTo` lines pending.
proof fn lemma_else_ifs_readable(
    g: GenState,
    ifs: DefineIfStatementNode,
    j: int,
    conds: Seq<(int, int, Seq<char>)>,
    jumps: Seq<(int, int)>,
)
    requires
        readable(g),
        1 <= g.lines.len(),
        else_ifs_ready(ifs, j),
        else_ifs_names(ifs, j),
        conds.len() > 0,
        pending_ifs(conds, g),
        pending_gotos(jumps, g),
    ensures
        readable(gen_else_ifs(g, ifs, j, conds, jumps).0),
        gen_else_ifs(g, ifs, j, conds, jumps).0.line >= g.line,
        gen_else_ifs(g, ifs, j, conds, jumps).1 is None ==> gen_else_ifs(g, ifs, j, conds, jumps).2.len() > 0
            && pending_ifs(gen_else_ifs(g, ifs, j, conds, jumps).2, gen_else_ifs(g, ifs, j, conds, jumps).0)
            && pending_gotos(gen_else_ifs(g, ifs, j, conds, jumps).3, gen_else_ifs(g, ifs, j, conds, jumps).0),
    decreases ifs, ifs.define_if_else_nodes@.len() - j,
{
    if 0 <= j < ifs.define_if_else_nodes@.len() {
        let n = ifs.define_if_else_nodes[j];
        let last = conds.last();
        assert(last == conds[conds.len() - 1]);
        lemma_rewrite_if_readable(g, last, g.line + 1);
        let g1 = rewrite(g, last.0, if_text(last, g.line + 1));
        assert(else_if_ready(n));
        assert(has_values(tree_of(n.condition)) && block_ready(n.statements, 0));
        lemma_branch_readable(g1, tree_of(n.condition), n.statements);
        let (g2, e, c, jump) = gen_branch(g1, tree_of(n.condition), n.statements);
        if e is None {
            let conds2 = conds.push(c);
            let jumps2 = jumps.push(jump);
            assert(pending_ifs(seq![c], g2));
            assert(pending_gotos(seq![jump], g2));
            assert(seq![c][0] == c);
            assert(seq![jump][0] == jump);
            assert forall|k: int| 0 <= k < conds2.len() implies (#[trigger] conds2[k]).0 == conds2[k].1 && 1
                <= conds2[k].0 < g2.lines.len() && colon_free(conds2[k].2) by {
                if k < conds.len() {
                    assert(conds2[k] == conds[k]);
                }
            }
            assert forall|k: int| 0 <= k < jumps2.len() implies 1 <= (#[trigger] jumps2[k]).0 < g2.lines.len()
                && jumps2[k].0 == jumps2[k].1 by {
                if k < jumps.len() {
                    assert(jumps2[k] == jumps[k]);
                }
            }
            lemma_else_ifs_readable(g2, ifs, j + 1, conds2, jumps2);
        }
    }
}

/// Whatever the generator writes of a program whose expressions carry their
/// tokens and whose variables have names without colons, the virtual machine reads back: each line after the
/// header decodes as an instruction, numbered by its place in the file,
/// while the number of the last line is below the largest `u128`. This
/// holds of the lines written before an error too.
pub proof fn lemma_program_reads_back(tree: StatementsNode, counter: int, stack: Seq<EnvironmentView>)
    requires
        block_ready(tree, 0),
        block_names(tree, 0),
    ensures
        ({
            let g = gen_program(GenState { lines: Seq::empty(), counter: counter, line: 0, stack: stack }, tree).0;
            g.line < u128::MAX ==> decodes(g)
        }),
{
    let g = GenState { lines: Seq::<Seq<char>>::empty(), counter: counter, line: 0, stack: stack };
    let g0 = GenState { lines: g.lines.push(header()), counter: counter, line: 0, stack: stack };
    let p = decimal_text(0) + ":"@;
    reveal_strlit("0:EngineByteCode:");
    reveal_strlit(":");
    assert(decimal_text(0) == seq!['0']);
    assert(header().subrange(0, p.len() as int) =~= p);
    assert(g0.lines[0] == header());
    assert(readable(g0));
    lemma_block_readable(g0, tree, 0);
    let (g1, e) = gen_block(g0, tree, 0);
    if e is None {
        lemma_simple_bodies(Seq::empty());
        lemma_emit_readable(g1, "End:"@);
    }
}

/// The number of nodes of a tree.
pub open spec fn node_count(n: OperationNodeView) -> nat
    decreases n,
{
    1 + match n.left {
        Some(l) => node_count(*l),
        None => 0,
    } + match n.right {
        Some(r) => node_count(*r),
        None => 0,
    }
}

/* The order of operands */

/// The line numbered `num` that converts `source` into `x` as `ty`.
pub open spec fn convert_line(num: int, ty: Seq<char>, x: Seq<char>, source: Seq<char>) -> Seq<char> {
    decimal_text(num as nat) + ":"@ + ("Convert:"@ + ty + ":"@ + q(x) + ":"@ + q(source))
}

/// The line numbered `num` that stores the operation `name` of `a` and `b`,
/// in that order, in `t`.
pub open spec fn operation_line(num: int, name: Seq<char>, t: Seq<char>, a: Seq<char>, b: Seq<char>) -> Seq<char> {
    decimal_text(num as nat) + ":"@ + ("Operation:"@ + name + ":"@ + q(t) + ":"@ + q(a) + ":"@ + q(b))
}

/// `x` carries the value of `source`: it is `source` itself, or a
/// `Convert` line among `lines` from the `from`-th on fills it from
/// `source`.
pub open spec fn carries(lines: Seq<Seq<char>>, from: int, x: Seq<char>, source: Seq<char>) -> bool {
    ||| x == source
    ||| exists|k: int, num: int, ty: Seq<char>|
        #![trigger lines[k], convert_line(num, ty, x, source)]
        from <= k < lines.len() && lines[k] == convert_line(num, ty, x, source)
}

/// The lines of `a` are the first lines of `b`.
pub open spec fn keeps_lines(a: GenState, b: GenState) -> bool {
    &&& a.lines.len() <= b.lines.len()
    &&& forall|i: int| 0 <= i < a.lines.len() ==> #[trigger] b.lines[i] == a.lines[i]
}

/// A converted temporary adds two lines, the last of which converts the
/// source into it.
proof fn lemma_converted_line(g: GenState, ty: Seq<char>, zero: Seq<char>, from: Seq<char>)
    ensures
        ({
            let (g1, t) = converted(g, ty, zero, from);
            &&& keeps_lines(g, g1)
            &&& g1.lines.len() == g.lines.len() + 2
            &&& g1.lines[g.lines.len() + 1int] == convert_line(g1.line, ty, t, from)
        }),
{
}

/// An operated temporary adds two lines, the last of which is the
/// operation.
proof fn lemma_operated_line(g: GenState, ty: Seq<char>, zero: Seq<char>, name: Seq<char>, a: Seq<char>, b: Seq<char>)
    ensures
        ({
            let (g1, t) = operated(g, ty, zero, name, a, b);
            &&& keeps_lines(g, g1)
            &&& g1.lines.len() == g.lines.len() + 2
            &&& g1.lines.last() == operation_line(g1.line, name, t, a, b)
        }),
{
}

/// Every typed operation ends with one `Operation` line, whose operands
/// come in the order of the source: first the left operand, or a temporary
/// converted from it, then the right one, or a temporary converted from
/// it. The operation is the operator's own, but for texts, which are
/// joined with `Plus`.
#[verifier::spinoff_prover]
#[verifier::rlimit(40)]
pub proof fn lemma_operands_keep_their_order(
    g: GenState,
    op: OperatorType,
    ln: Seq<char>,
    lt: TokenType,
    rn: Seq<char>,
    rt: TokenType,
    n: OperationNodeView,
)
    ensures
        ({
            let (g2, r) = gen_typed(g, op, ln, lt, rn, rt, n);
            let texts = !(lt == TokenType::DoubleNumber || rt == TokenType::DoubleNumber || lt == TokenType::IntNumber
                || rt == TokenType::IntNumber) && (lt == TokenType::StringSequence || rt == TokenType::StringSequence
                || lt == TokenType::Character || rt == TokenType::Character);
            r matches Ok((t, _)) ==> exists|a: Seq<char>, b: Seq<char>|
                #![trigger operation_line(g2.line, operator_name(op), t, a, b)]
                #![trigger operation_line(g2.line, "Plus"@, t, a, b)]
                {
                    &&& g2.lines.last() == operation_line(
                        g2.line,
                        if texts {
                            "Plus"@
                        } else {
                            operator_name(op)
                        },
                        t,
                        a,
                        b,
                    )
                    &&& carries(g2.lines, g.lines.len() as int, a, ln)
                    &&& carries(g2.lines, g.lines.len() as int, b, rn)
                }
        }),
{
    reveal(gen_typed);
    let name = operator_name(op);
    let start = g.lines.len() as int;
    if lt == TokenType::DoubleNumber || rt == TokenType::DoubleNumber {
        let ty = if is_arithmetic(op) { "double"@ } else { "bool"@ };
        let zero = if is_arithmetic(op) { "0"@ } else { "False"@ };
        if lt == TokenType::IntNumber {
            let (g1, first) = converted(g, "double"@, "0"@, ln);
            lemma_converted_line(g, "double"@, "0"@, ln);
            let (g2, t) = operated(g1, ty, zero, name, first, rn);
            lemma_operated_line(g1, ty, zero, name, first, rn);
            assert(g2.lines[start + 1] == convert_line(g1.line, "double"@, first, ln));
            assert(operation_line(g2.line, name, t, first, rn) == g2.lines.last());
            assert(gen_typed(g, op, ln, lt, rn, rt, n).0 == g2);
            assert(gen_typed(g, op, ln, lt, rn, rt, n).1 matches Ok((x, _)) && x == t);
        } else if rt == TokenType::IntNumber {
            let (g1, second) = converted(g, "double"@, "0"@, rn);
            lemma_converted_line(g, "double"@, "0"@, rn);
            let (g2, t) = operated(g1, ty, zero, name, ln, second);
            lemma_operated_line(g1, ty, zero, name, ln, second);
            assert(g2.lines[start + 1] == convert_line(g1.line, "double"@, second, rn));
            assert(operation_line(g2.line, name, t, ln, second) == g2.lines.last());
            assert(gen_typed(g, op, ln, lt, rn, rt, n).0 == g2);
            assert(gen_typed(g, op, ln, lt, rn, rt, n).1 matches Ok((x, _)) && x == t);
        } else {
            let (g2, t) = operated(g, ty, zero, name, ln, rn);
            lemma_operated_line(g, ty, zero, name, ln, rn);
            assert(operation_line(g2.line, name, t, ln, rn) == g2.lines.last());
            assert(gen_typed(g, op, ln, lt, rn, rt, n).0 == g2);
            assert(gen_typed(g, op, ln, lt, rn, rt, n).1 matches Ok((x, _)) && x == t);
        }
    } else if lt == TokenType::IntNumber || rt == TokenType::IntNumber {
        if is_arithmetic(op) && op != OperatorType::Div {
            let (g1, t) = operated(g, "int"@, "0"@, name, ln, rn);
            lemma_operated_line(g, "int"@, "0"@, name, ln, rn);
            assert(operation_line(g1.line, name, t, ln, rn) == g1.lines.last());
            assert(gen_typed(g, op, ln, lt, rn, rt, n).0 == g1);
            assert(gen_typed(g, op, ln, lt, rn, rt, n).1 matches Ok((x, _)) && x == t);
        } else if op == OperatorType::Div {
            let (g1, first) = converted(g, "double"@, "0"@, ln);
            lemma_converted_line(g, "double"@, "0"@, ln);
            let (g2, second) = converted(g1, "double"@, "0"@, rn);
            lemma_converted_line(g1, "double"@, "0"@, rn);
            let (g3, t) = operated(g2, "double"@, "0"@, "Div"@, first, second);
            lemma_operated_line(g2, "double"@, "0"@, "Div"@, first, second);
            assert(g3.lines[start + 1] == convert_line(g1.line, "double"@, first, ln));
            assert(g3.lines[start + 3] == convert_line(g2.line, "double"@, second, rn));
            assert(operation_line(g3.line, name, t, first, second) == g3.lines.last());
            assert(gen_typed(g, op, ln, lt, rn, rt, n).0 == g3);
            assert(gen_typed(g, op, ln, lt, rn, rt, n).1 matches Ok((x, _)) && x == t);
        } else {
            let (g1, t) = operated(g, "bool"@, "False"@, name, ln, rn);
            lemma_operated_line(g, "bool"@, "False"@, name, ln, rn);
            assert(operation_line(g1.line, name, t, ln, rn) == g1.lines.last());
            assert(gen_typed(g, op, ln, lt, rn, rt, n).0 == g1);
            assert(gen_typed(g, op, ln, lt, rn, rt, n).1 matches Ok((x, _)) && x == t);
        }
    } else if lt == TokenType::StringSequence || rt == TokenType::StringSequence {
        if lt == TokenType::Character {
            let (g1, first) = converted(g, "string"@, "\"\""@, ln);
            lemma_converted_line(g, "string"@, "\"\""@, ln);
            let (g2, t) = operated(g1, "string"@, "\"\""@, "Plus"@, first, rn);
            lemma_operated_line(g1, "string"@, "\"\""@, "Plus"@, first, rn);
            assert(g2.lines[start + 1] == convert_line(g1.line, "string"@, first, ln));
            assert(operation_line(g2.line, "Plus"@, t, first, rn) == g2.lines.last());
            assert(gen_typed(g, op, ln, lt, rn, rt, n).0 == g2);
            assert(gen_typed(g, op, ln, lt, rn, rt, n).1 matches Ok((x, _)) && x == t);
        } else if rt == TokenType::Character {
            let (g1, second) = converted(g, "string"@, "\"\""@, rn);
            lemma_converted_line(g, "string"@, "\"\""@, rn);
            let (g2, t) = operated(g1, "string"@, "\"\""@, "Plus"@, ln, second);
            lemma_operated_line(g1, "string"@, "\"\""@, "Plus"@, ln, second);
            assert(g2.lines[start + 1] == convert_line(g1.line, "string"@, second, rn));
            assert(operation_line(g2.line, "Plus"@, t, ln, second) == g2.lines.last());
            assert(gen_typed(g, op, ln, lt, rn, rt, n).0 == g2);
            assert(gen_typed(g, op, ln, lt, rn, rt, n).1 matches Ok((x, _)) && x == t);
        } else {
            let (g1, t) = operated(g, "string"@, "\"\""@, "Plus"@, ln, rn);
            lemma_operated_line(g, "string"@, "\"\""@, "Plus"@, ln, rn);
            assert(operation_line(g1.line, "Plus"@, t, ln, rn) == g1.lines.last());
            assert(gen_typed(g, op, ln, lt, rn, rt, n).0 == g1);
            assert(gen_typed(g, op, ln, lt, rn, rt, n).1 matches Ok((x, _)) && x == t);
        }
    } else if lt == TokenType::Character || rt == TokenType::Character {
        let (g1, first) = converted(g, "string"@, "\"\""@, ln);
        lemma_converted_line(g, "string"@, "\"\""@, ln);
        let (g2, second) = converted(g1, "string"@, "\"\""@, rn);
        lemma_converted_line(g1, "string"@, "\"\""@, rn);
        let (g3, t) = operated(g2, "string"@, "\"\""@, "Plus"@, first, second);
        lemma_operated_line(g2, "string"@, "\"\""@, "Plus"@, first, second);
        assert(g3.lines[start + 1] == convert_line(g1.line, "string"@, first, ln));
        assert(g3.lines[start + 3] == convert_line(g2.line, "string"@, second, rn));
        assert(operation_line(g3.line, "Plus"@, t, first, second) == g3.lines.last());
        assert(gen_typed(g, op, ln, lt, rn, rt, n).0 == g3);
        assert(gen_typed(g, op, ln, lt, rn, rt, n).1 matches Ok((x, _)) && x == t);
    } else if lt == TokenType::Bool || lt == TokenType::True || lt == TokenType::False || rt == TokenType::Bool
        || rt == TokenType::True || rt == TokenType::False {
        let (g1, t) = operated(g, "bool"@, "False"@, name, ln, rn);
        lemma_operated_line(g, "bool"@, "False"@, name, ln, rn);
        assert(operation_line(g1.line, name, t, ln, rn) == g1.lines.last());
        assert(gen_typed(g, op, ln, lt, rn, rt, n).0 == g1);
        assert(gen_typed(g, op, ln, lt, rn, rt, n).1 matches Ok((x, _)) && x == t);
    }
}

} // verus!
