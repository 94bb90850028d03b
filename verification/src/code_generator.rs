use std::collections::VecDeque;

use vstd::prelude::*;
use vstd::string::*;

use crate::analyzer::{scopes, token_of, tree_of, value_of};
use crate::bytecode::{
    block_size, branch_size, escape_text, escaped, fresh_variable, if_size, is_arithmetic,
    lemma_children_counted, node_count, statement_size, store_variable, stored, else_ifs_size,
};
use crate::environments::{all_typed, find_variable, Environment, EnvironmentScope, EnvironmentView, Variable};
use crate::parser::{kind_name, kind_name_string};
use crate::syntax_tree::{
    block_ready, else_if_ready, else_ifs_ready, has_values, if_ready, statement_ready,
    DefineIfStatementNode, OperationNode, OperationNodeView, OperatorType, StatementNode,
    StatementType, StatementsNode,
};
use crate::text::{decimal_text, push_char, push_decimal};
use crate::tokens::{Token, TokenType, TokenView};
use vstd::std_specs::vecdeque::VecDequeAdditionalSpecFns;

verus! {

/* The state of the generator */

/// What the generator of Rust source has written and where it stands: the
/// lines so far, the count of temporaries, and the scopes of the variables.
pub ghost struct CodeState {
    pub lines: Seq<Seq<char>>,
    pub counter: int,
    pub stack: Seq<EnvironmentView>,
}

/// A new temporary of the generated program.
pub open spec fn temporary(c: CodeState) -> (CodeState, Seq<char>) {
    let k = c.counter + 1;
    (CodeState { lines: c.lines, counter: k, stack: c.stack }, "temp_"@ + decimal_text(k as nat))
}

/// The state after the line `text`.
pub open spec fn put_line(c: CodeState, text: Seq<char>) -> CodeState {
    CodeState { lines: c.lines.push(text), counter: c.counter, stack: c.stack }
}

/// The state with `v` stored in its scopes.
pub open spec fn code_store(c: CodeState, v: crate::environments::VariableView) -> CodeState {
    CodeState { lines: c.lines, counter: c.counter, stack: stored(c.stack, v) }
}

/// The name under which the generated program holds the variable `name`.
pub open spec fn rust_variable(name: Seq<char>) -> Seq<char> {
    "variable_"@ + name
}

/// The error of a name that no scope holds.
pub open spec fn code_missing_error(name: Seq<char>) -> Seq<char> {
    "Engine Compiler: Code Generation Error -> Variable `"@ + name + "` not found."@
}

/// A character of a string literal, escaped: tabs, double quotes and
/// backslashes.
pub open spec fn literal_escape(c: char) -> Seq<char> {
    if c == '"' {
        seq!['\\', '"']
    } else if c == '\t' {
        seq!['\\', 't']
    } else if c == '\\' {
        seq!['\\', '\\']
    } else {
        seq![c]
    }
}

/// The text with each character escaped for a string literal of the
/// generated program.
pub open spec fn literal_escaped(s: Seq<char>) -> Seq<char>
    decreases s.len(),
{
    if s.len() == 0 {
        Seq::empty()
    } else {
        literal_escaped(s.drop_last()) + literal_escape(s.last())
    }
}

/// The kind of value that a variable of type `t` gives an expression.
pub open spec fn held_kind(t: Option<TokenType>) -> TokenType {
    match t {
        Some(TokenType::Int) => TokenType::IntNumber,
        Some(TokenType::Double) => TokenType::DoubleNumber,
        Some(TokenType::String) => TokenType::StringSequence,
        Some(TokenType::Char) => TokenType::Character,
        _ => TokenType::Bool,
    }
}

/// `line:position` of a token.
pub open spec fn place(t: TokenView) -> Seq<char> {
    decimal_text(t.start_line as nat) + ":"@ + decimal_text(t.start_pos as nat)
}

/* Expressions */

/// The code of a leaf: a temporary that holds a literal, or the variable
/// itself. A temporary is counted in every case.
#[verifier::opaque]
pub open spec fn code_leaf(c: CodeState, t: TokenView) -> (CodeState, Result<(Seq<char>, TokenType), Seq<char>>) {
    let (c1, tmp) = temporary(c);
    let kind = t.token_type;
    if kind == TokenType::IntNumber {
        (put_line(c1, "let mut "@ + tmp + ": i64 = "@ + t.value + ";"@), Ok((tmp, kind)))
    } else if kind == TokenType::DoubleNumber {
        (put_line(c1, "let mut "@ + tmp + ": f64 = "@ + t.value + ";"@), Ok((tmp, kind)))
    } else if kind == TokenType::True {
        (put_line(c1, "let mut "@ + tmp + ": bool = true;"@), Ok((tmp, kind)))
    } else if kind == TokenType::False {
        (put_line(c1, "let mut "@ + tmp + ": bool = false;"@), Ok((tmp, kind)))
    } else if kind == TokenType::Character {
        (put_line(c1, "let mut "@ + tmp + ": char = '"@ + escaped(t.value, false) + "';"@), Ok((tmp, kind)))
    } else if kind == TokenType::StringSequence {
        (
            put_line(c1, "let mut "@ + tmp + ": String = String::from(\""@ + literal_escaped(t.value) + "\");"@),
            Ok((tmp, kind)),
        )
    } else if kind == TokenType::Variable {
        match find_variable(c1.stack, t.value) {
            None => (c1, Err(code_missing_error(t.value))),
            Some(v) => (c1, Ok((rust_variable(t.value), held_kind(v.variable_type)))),
        }
    } else {
        (c1, Err("Engine Compiler: File Error -> Can't Generate File, line "@ + place(t)))
    }
}

/// The Rust type to which an input is parsed for the type keyword `t`.
pub open spec fn parse_type(t: TokenType) -> Seq<char> {
    if t == TokenType::Bool {
        "bool"@
    } else if t == TokenType::Int {
        "i64"@
    } else if t == TokenType::Double {
        "f64"@
    } else if t == TokenType::Char {
        "char"@
    } else {
        "String"@
    }
}

/// The code of an input read and parsed to the type that `v` names: a
/// line is read, trimmed and parsed, and the program stops with a message
/// where either fails.
#[verifier::opaque]
pub open spec fn code_input(c: CodeState, v: TokenView) -> (CodeState, Seq<char>) {
    let (c1, read) = temporary(c);
    let c2 = put_line(c1, "let mut "@ + read + " = String::new();"@);
    let c3 = put_line(c2, "if io::stdin().read_line(&mut "@ + read + ").is_err(){"@);
    let c4 = put_line(
        c3,
        "panic!(\"Engine Compiler: Compiler Error -> Failed to read input, line: "@ + place(v) + "\")"@,
    );
    let c5 = put_line(c4, "}"@);
    let c6 = put_line(c5, "let mut "@ + read + " = String::from("@ + read + ".trim_end());"@);
    let (c7, conv) = temporary(c6);
    let c8 = put_line(c7, "let mut "@ + conv + " = "@ + read + ".parse::<"@ + parse_type(v.token_type) + ">();"@);
    let c9 = put_line(c8, "if "@ + conv + ".is_err(){"@);
    let c10 = put_line(
        c9,
        "panic!(\"Engine Compiler: Convert Error -> can't convert from `String` to `"@ + kind_name(v.token_type)
            + "`, line: "@ + place(v) + "\");"@,
    );
    let c11 = put_line(c10, "}"@);
    (put_line(c11, "let mut "@ + conv + " = "@ + conv + ".unwrap();"@), conv)
}

/// A temporary of type `ty` bound to `expr`.
pub open spec fn binding(c: CodeState, ty: Seq<char>, expr: Seq<char>) -> (CodeState, Seq<char>) {
    let (c1, tmp) = temporary(c);
    (put_line(c1, "let mut "@ + tmp + ": "@ + ty + " = "@ + expr + ";"@), tmp)
}

/// The code of the operation of node `n` on operands held in `ln` (of kind
/// `lt`) and `rn` (of kind `rt`).
#[verifier::opaque]
pub open spec fn code_typed(
    c: CodeState,
    op: OperatorType,
    ln: Seq<char>,
    lt: TokenType,
    rn: Seq<char>,
    rt: TokenType,
    n: OperationNodeView,
) -> (CodeState, Result<(Seq<char>, TokenType), Seq<char>>) {
    let sym = value_of(n).value;
    if lt == TokenType::DoubleNumber || rt == TokenType::DoubleNumber {
        let ty = if is_arithmetic(op) {
            "f64"@
        } else {
            "bool"@
        };
        let (c1, t) = binding(c, ty, ln + " as f64 "@ + sym + " "@ + rn + " as f64"@);
        (c1, Ok((t, if is_arithmetic(op) { TokenType::DoubleNumber } else { TokenType::Bool })))
    } else if lt == TokenType::IntNumber || rt == TokenType::IntNumber {
        if is_arithmetic(op) && op != OperatorType::Div {
            let (c1, t) = binding(c, "i64"@, ln + " as i64 "@ + sym + " "@ + rn + " as i64"@);
            (c1, Ok((t, TokenType::IntNumber)))
        } else if op == OperatorType::Div {
            let (c1, t) = binding(c, "f64"@, ln + " as f64 "@ + sym + " "@ + rn + " as f64"@);
            (c1, Ok((t, TokenType::DoubleNumber)))
        } else {
            let (c1, t) = binding(c, "bool"@, ln + " "@ + sym + " "@ + rn);
            (c1, Ok((t, TokenType::Bool)))
        }
    } else if lt == TokenType::StringSequence || rt == TokenType::StringSequence {
        let (c1, tmp) = temporary(c);
        let text = if lt == TokenType::Character {
            "let mut "@ + tmp + ": String = String::from("@ + ln + ") + &"@ + rn + ".clone();"@
        } else if rt == TokenType::Character {
            "let mut "@ + tmp + ": String = "@ + ln + ".clone() + &String::from("@ + rn + ");"@
        } else {
            "\tlet mut "@ + tmp + ": String = "@ + ln + ".clone() + &"@ + rn + ".clone();"@
        };
        (put_line(c1, text), Ok((tmp, TokenType::StringSequence)))
    } else if lt == TokenType::Character || rt == TokenType::Character {
        let (c1, t) = binding(c, "String"@, "String::from("@ + ln + ") + &String::from("@ + rn + ")"@);
        (c1, Ok((t, TokenType::StringSequence)))
    } else if lt == TokenType::Bool || lt == TokenType::True || lt == TokenType::False || rt
        == TokenType::Bool || rt == TokenType::True || rt == TokenType::False {
        let (c1, t) = binding(c, "bool"@, ln + " "@ + sym + " "@ + rn);
        (c1, Ok((t, TokenType::Bool)))
    } else {
        (
            c,
            Err(
                "Engine Compiler: Code Generation Error -> Unknown Operation "@ + sym + " for types "@
                    + kind_name(lt) + " and "@ + kind_name(rt) + ", line: "@ + place(value_of(n)),
            ),
        )
    }
}

/// The code of an expression: the lines it adds, the state it leaves, and
/// the name that holds its value with the value's kind, or the error that
/// stopped it.
pub open spec fn code_expr(c: CodeState, n: OperationNodeView) -> (CodeState, Result<(Seq<char>, TokenType), Seq<char>>)
    decreases n,
{
    match n.operator {
        None => code_leaf(c, value_of(n)),
        Some(op) => {
            let (c1, lres) = match n.left {
                Some(l) => code_expr(c, *l),
                None => (c, Ok((Seq::empty(), TokenType::BadToken))),
            };
            match lres {
                Err(m) => (c1, Err(m)),
                Ok((ln, lt)) => {
                    let (c2, rres) = match n.right {
                        Some(r) => code_expr(c1, *r),
                        None => (c1, Ok((Seq::empty(), TokenType::BadToken))),
                    };
                    match rres {
                        Err(m) => (c2, Err(m)),
                        Ok((rn, rt)) => if n.left is Some && n.right is None {
                            (c2, Ok((ln, lt)))
                        } else if n.right is Some && n.left is None {
                            (c2, Ok((rn, rt)))
                        } else if op == OperatorType::Convert {
                            let (c3, t) = code_input(c2, value_of(n));
                            (c3, Ok((t, value_of(n).token_type)))
                        } else {
                            code_typed(c2, op, ln, lt, rn, rt, n)
                        },
                    }
                },
            }
        },
    }
}

/* The generator */

/// Writes a Rust program for a syntax tree, one statement of Rust a line.
pub struct CodeGenerator {
    syntax_tree: StatementsNode,
    lines: Vec<String>,
    current_counter: u128,
    environments_stack: VecDeque<Environment>,
}

/// The generator is where `expected` says, and its outcome is the one
/// `expected` gives.
pub open spec fn code_is(
    after: CodeState,
    r: Result<(String, TokenType), String>,
    expected: (CodeState, Result<(Seq<char>, TokenType), Seq<char>>),
) -> bool {
    &&& after == expected.0
    &&& match (r, expected.1) {
        (Ok((x, t)), Ok((y, u))) => x@ == y && t == u,
        (Err(e), Err(m)) => e@ == m,
        _ => false,
    }
}

/// There is room for `temps` more temporaries.
pub open spec fn room(c: CodeState, temps: int) -> bool {
    0 <= c.counter && c.counter + temps <= u128::MAX
}

/// The generator counted at most `temps` more temporaries and lost no
/// line.
pub open spec fn counted(a: CodeState, b: CodeState, temps: int) -> bool {
    &&& a.lines.len() <= b.lines.len()
    &&& a.counter <= b.counter <= a.counter + temps
}

impl CodeGenerator {
    /// What the generator has written and where it stands.
    pub closed spec fn state(self) -> CodeState {
        CodeState {
            lines: self.lines@.map_values(|l: String| l@),
            counter: self.current_counter as int,
            stack: scopes(self.environments_stack@),
        }
    }

    /// The tree the generator writes a program for.
    pub closed spec fn tree(self) -> StatementsNode {
        self.syntax_tree
    }

    /// A generator for `syntax_tree` that has written nothing, with one,
    /// empty, main scope.
    pub fn new(syntax_tree: StatementsNode) -> (r: Self)
        ensures
            r.tree() == syntax_tree,
            r.state() == (CodeState {
                lines: Seq::empty(),
                counter: 0,
                stack: seq![EnvironmentView { scope: EnvironmentScope::Main, variables: Seq::empty() }],
            }),
    {
        let mut environments_stack = VecDeque::new();
        environments_stack.push_back(Environment::new(EnvironmentScope::Main));
        let r = CodeGenerator { syntax_tree, lines: Vec::new(), current_counter: 0, environments_stack };
        assert(r.state().lines =~= Seq::<Seq<char>>::empty());
        assert(r.state().stack =~= seq![
            EnvironmentView { scope: EnvironmentScope::Main, variables: Seq::empty() },
        ]);
        r
    }

    /// The lines written so far.
    pub fn lines(&self) -> (r: &Vec<String>)
        ensures
            r@.map_values(|l: String| l@) == self.state().lines,
    {
        &self.lines
    }

    /// A new temporary's number, as `_n`.
    fn generate_variable_name(&mut self) -> (name: String)
        requires
            old(self).state().counter < u128::MAX,
        ensures
            name@ == "_"@ + decimal_text(final(self).state().counter as nat),
            final(self).state() == temporary(old(self).state()).0,
    {
        self.current_counter = self.current_counter + 1;
        let mut name = String::from_str("_");
        push_decimal(&mut name, self.current_counter);
        proof {
            let c = old(self).state();
            assert(self.state() =~= temporary(c).0);
        }
        name
    }

    /// A new temporary: `temp_n`.
    fn temporary_name(&mut self) -> (name: String)
        requires
            old(self).state().counter < u128::MAX,
        ensures
            (final(self).state(), name@) == temporary(old(self).state()),
    {
        let number = self.generate_variable_name();
        let mut name = String::from_str("temp");
        name.append(number.as_str());
        proof {
            reveal_strlit("temp");
            reveal_strlit("_");
            reveal_strlit("temp_");
        }
        assert(name@ =~= "temp_"@ + decimal_text(self.state().counter as nat));
        name
    }

    /// Writes the line `text`.
    fn writeln(&mut self, text: String)
        ensures
            final(self).state() == put_line(old(self).state(), text@),
    {
        let ghost c = self.state();
        let ghost t = text@;
        self.lines.push(text);
        assert(self.state().lines =~= c.lines.push(t));
        assert(self.state() =~= put_line(c, t));
    }
}

/// The text with each character escaped for a string literal of the
/// generated program.
fn escape_literal(s: &String) -> (r: String)
    ensures
        r@ == literal_escaped(s@),
{
    let mut r = String::new();
    let n = s.as_str().unicode_len();
    let mut i: usize = 0;
    assert(s@.take(0) =~= Seq::<char>::empty());
    while i < n
        invariant
            i <= n,
            n == s@.len(),
            r@ == literal_escaped(s@.take(i as int)),
        decreases n - i,
    {
        let c = s.as_str().get_char(i);
        if c == '"' {
            push_char(&mut r, '\\');
            push_char(&mut r, '"');
        } else if c == '\t' {
            push_char(&mut r, '\\');
            push_char(&mut r, 't');
        } else if c == '\\' {
            push_char(&mut r, '\\');
            push_char(&mut r, '\\');
        } else {
            push_char(&mut r, c);
        }
        proof {
            let t = s@.take(i as int + 1);
            assert(t.drop_last() =~= s@.take(i as int));
            assert(t.last() == c);
            assert(r@ =~= literal_escaped(t));
        }
        i = i + 1;
    }
    assert(s@.take(n as int) =~= s@);
    r
}

/// `line:position` of a token, appended to `s`.
fn push_place(s: &mut String, t: &Token)
    ensures
        final(s)@ == old(s)@ + place(t@),
{
    push_decimal(s, t.start_line as u128);
    s.append(":");
    push_decimal(s, t.start_pos as u128);
}

/// The type of the variable named `name`, from the first scope that holds
/// one.
fn variable_type_in(stack: &VecDeque<Environment>, name: &String) -> (r: Result<TokenType, String>)
    requires
        all_typed(scopes(stack@)),
    ensures
        match (r, find_variable(scopes(stack@), name@)) {
            (Ok(t), Some(v)) => v.variable_type == Some(t),
            (Err(e), None) => e@ == code_missing_error(name@),
            _ => false,
        },
{
    match crate::analyzer::find_variable_in(stack, name) {
        Some(t) => Ok(t),
        None => {
            let mut message = String::from_str("Engine Compiler: Code Generation Error -> Variable `");
            message.append(name.as_str());
            message.append("` not found.");
            Err(message)
        },
    }
}

impl CodeGenerator {
    /// The code of a leaf.
    fn generate_leaf(&mut self, t: &Token) -> (r: Result<(String, TokenType), String>)
        requires
            room(old(self).state(), 1),
            all_typed(old(self).state().stack),
        ensures
            code_is(final(self).state(), r, code_leaf(old(self).state(), t@)),
            counted(old(self).state(), final(self).state(), 1),
            final(self).state().stack == old(self).state().stack,
    {
        proof {
            reveal(code_leaf);
        }
        let tmp = self.temporary_name();
        let kind = t.token_type;
        if kind == TokenType::IntNumber || kind == TokenType::DoubleNumber || kind == TokenType::True
            || kind == TokenType::False || kind == TokenType::Character || kind
            == TokenType::StringSequence {
            let mut text = String::from_str("let mut ");
            text.append(tmp.as_str());
            if kind == TokenType::IntNumber {
                text.append(": i64 = ");
                text.append(t.value.as_str());
                text.append(";");
            } else if kind == TokenType::DoubleNumber {
                text.append(": f64 = ");
                text.append(t.value.as_str());
                text.append(";");
            } else if kind == TokenType::True {
                text.append(": bool = true;");
            } else if kind == TokenType::False {
                text.append(": bool = false;");
            } else if kind == TokenType::Character {
                text.append(": char = '");
                text.append(escape_text(&t.value, false).as_str());
                text.append("';");
            } else {
                text.append(": String = String::from(\"");
                text.append(escape_literal(&t.value).as_str());
                text.append("\");");
            }
            self.writeln(text);
            Ok((tmp, kind))
        } else if kind == TokenType::Variable {
            let variable_type = match variable_type_in(&self.environments_stack, &t.value) {
                Ok(x) => x,
                Err(e) => {
                    return Err(e);
                },
            };
            let mut name = String::from_str("variable_");
            name.append(t.value.as_str());
            if variable_type == TokenType::Int {
                Ok((name, TokenType::IntNumber))
            } else if variable_type == TokenType::Double {
                Ok((name, TokenType::DoubleNumber))
            } else if variable_type == TokenType::String {
                Ok((name, TokenType::StringSequence))
            } else if variable_type == TokenType::Char {
                Ok((name, TokenType::Character))
            } else {
                Ok((name, TokenType::Bool))
            }
        } else {
            let mut message = String::from_str("Engine Compiler: File Error -> Can't Generate File, line ");
            push_place(&mut message, t);
            Err(message)
        }
    }

    /// The code of an input read and parsed to the type that `v` names.
    fn generate_input(&mut self, v: &Token) -> (conv: String)
        requires
            room(old(self).state(), 2),
        ensures
            (final(self).state(), conv@) == code_input(old(self).state(), v@),
            counted(old(self).state(), final(self).state(), 2),
            final(self).state().stack == old(self).state().stack,
    {
        proof {
            reveal(code_input);
        }
        let read = self.temporary_name();
        let mut text = String::from_str("let mut ");
        text.append(read.as_str());
        text.append(" = String::new();");
        self.writeln(text);
        let mut text = String::from_str("if io::stdin().read_line(&mut ");
        text.append(read.as_str());
        text.append(").is_err(){");
        self.writeln(text);
        let mut text = String::from_str(
            "panic!(\"Engine Compiler: Compiler Error -> Failed to read input, line: ",
        );
        push_place(&mut text, v);
        text.append("\")");
        self.writeln(text);
        self.writeln(String::from_str("}"));
        let mut text = String::from_str("let mut ");
        text.append(read.as_str());
        text.append(" = String::from(");
        text.append(read.as_str());
        text.append(".trim_end());");
        self.writeln(text);
        let conv = self.temporary_name();
        let ty = if v.token_type == TokenType::Bool {
            "bool"
        } else if v.token_type == TokenType::Int {
            "i64"
        } else if v.token_type == TokenType::Double {
            "f64"
        } else if v.token_type == TokenType::Char {
            "char"
        } else {
            "String"
        };
        let mut text = String::from_str("let mut ");
        text.append(conv.as_str());
        text.append(" = ");
        text.append(read.as_str());
        text.append(".parse::<");
        text.append(ty);
        text.append(">();");
        self.writeln(text);
        let mut text = String::from_str("if ");
        text.append(conv.as_str());
        text.append(".is_err(){");
        self.writeln(text);
        let mut text = String::from_str(
            "panic!(\"Engine Compiler: Convert Error -> can't convert from `String` to `",
        );
        text.append(kind_name_string(v.token_type).as_str());
        text.append("`, line: ");
        push_place(&mut text, v);
        text.append("\");");
        self.writeln(text);
        self.writeln(String::from_str("}"));
        let mut text = String::from_str("let mut ");
        text.append(conv.as_str());
        text.append(" = ");
        text.append(conv.as_str());
        text.append(".unwrap();");
        self.writeln(text);
        conv
    }

    /// A temporary of type `ty` bound to `expr`.
    fn bind(&mut self, ty: &str, expr: String) -> (tmp: String)
        requires
            room(old(self).state(), 1),
        ensures
            (final(self).state(), tmp@) == binding(old(self).state(), ty@, expr@),
            counted(old(self).state(), final(self).state(), 1),
            final(self).state().stack == old(self).state().stack,
    {
        let tmp = self.temporary_name();
        let mut text = String::from_str("let mut ");
        text.append(tmp.as_str());
        text.append(": ");
        text.append(ty);
        text.append(" = ");
        text.append(expr.as_str());
        text.append(";");
        self.writeln(text);
        tmp
    }
}

/// `a` then `b`, then `c`, then `d`, then `e`: the text of an operation.
fn joined(a: &String, b: &str, c: &String, d: &str, e: &String, f: &str) -> (r: String)
    ensures
        r@ == a@ + b@ + c@ + d@ + e@ + f@,
{
    let mut r = a.clone();
    r.append(b);
    r.append(c.as_str());
    r.append(d);
    r.append(e.as_str());
    r.append(f);
    r
}

impl CodeGenerator {
    /// The code of the operation of `operation_node` on operands held in
    /// `ln` (of kind `lt`) and `rn` (of kind `rt`).
    fn generate_typed(
        &mut self,
        operator: OperatorType,
        ln: String,
        lt: TokenType,
        rn: String,
        rt: TokenType,
        operation_node: &OperationNode,
    ) -> (r: Result<(String, TokenType), String>)
        requires
            room(old(self).state(), 1),
            has_values(operation_node@),
        ensures
            code_is(final(self).state(), r, code_typed(old(self).state(), operator, ln@, lt, rn@, rt, operation_node@)),
            counted(old(self).state(), final(self).state(), 1),
            final(self).state().stack == old(self).state().stack,
    {
        proof {
            reveal(code_typed);
        }
        let value = operation_node.value.as_ref().unwrap();
        let sym = &value.value;
        let arithmetic = operator == OperatorType::Plus || operator == OperatorType::Minus || operator
            == OperatorType::Mul || operator == OperatorType::Div || operator == OperatorType::Mod;
        if lt == TokenType::DoubleNumber || rt == TokenType::DoubleNumber {
            let mut expr = ln.clone();
            expr.append(" as f64 ");
            expr.append(sym.as_str());
            expr.append(" ");
            expr.append(rn.as_str());
            expr.append(" as f64");
            if arithmetic {
                let t = self.bind("f64", expr);
                Ok((t, TokenType::DoubleNumber))
            } else {
                let t = self.bind("bool", expr);
                Ok((t, TokenType::Bool))
            }
        } else if lt == TokenType::IntNumber || rt == TokenType::IntNumber {
            if arithmetic && operator != OperatorType::Div {
                let mut expr = ln.clone();
                expr.append(" as i64 ");
                expr.append(sym.as_str());
                expr.append(" ");
                expr.append(rn.as_str());
                expr.append(" as i64");
                let t = self.bind("i64", expr);
                Ok((t, TokenType::IntNumber))
            } else if operator == OperatorType::Div {
                let mut expr = ln.clone();
                expr.append(" as f64 ");
                expr.append(sym.as_str());
                expr.append(" ");
                expr.append(rn.as_str());
                expr.append(" as f64");
                let t = self.bind("f64", expr);
                Ok((t, TokenType::DoubleNumber))
            } else {
                let t = self.bind("bool", joined(&ln, " ", sym, " ", &rn, ""));
                proof {
                    reveal_strlit("");
                }
                assert(ln@ + " "@ + sym@ + " "@ + rn@ + ""@ =~= ln@ + " "@ + sym@ + " "@ + rn@);
                Ok((t, TokenType::Bool))
            }
        } else if lt == TokenType::StringSequence || rt == TokenType::StringSequence {
            let tmp = self.temporary_name();
            let mut text = String::from_str("let mut ");
            if lt == TokenType::Character {
                text.append(tmp.as_str());
                text.append(": String = String::from(");
                text.append(ln.as_str());
                text.append(") + &");
                text.append(rn.as_str());
                text.append(".clone();");
            } else if rt == TokenType::Character {
                text.append(tmp.as_str());
                text.append(": String = ");
                text.append(ln.as_str());
                text.append(".clone() + &String::from(");
                text.append(rn.as_str());
                text.append(");");
            } else {
                text = String::from_str("\tlet mut ");
                text.append(tmp.as_str());
                text.append(": String = ");
                text.append(ln.as_str());
                text.append(".clone() + &");
                text.append(rn.as_str());
                text.append(".clone();");
            }
            self.writeln(text);
            Ok((tmp, TokenType::StringSequence))
        } else if lt == TokenType::Character || rt == TokenType::Character {
            let mut expr = String::from_str("String::from(");
            expr.append(ln.as_str());
            expr.append(") + &String::from(");
            expr.append(rn.as_str());
            expr.append(")");
            let t = self.bind("String", expr);
            Ok((t, TokenType::StringSequence))
        } else if lt == TokenType::Bool || lt == TokenType::True || lt == TokenType::False || rt
            == TokenType::Bool || rt == TokenType::True || rt == TokenType::False {
            let t = self.bind("bool", joined(&ln, " ", sym, " ", &rn, ""));
            proof {
                reveal_strlit("");
            }
            assert(ln@ + " "@ + sym@ + " "@ + rn@ + ""@ =~= ln@ + " "@ + sym@ + " "@ + rn@);
            Ok((t, TokenType::Bool))
        } else {
            let mut message = String::from_str("Engine Compiler: Code Generation Error -> Unknown Operation ");
            message.append(sym.as_str());
            message.append(" for types ");
            message.append(kind_name_string(lt).as_str());
            message.append(" and ");
            message.append(kind_name_string(rt).as_str());
            message.append(", line: ");
            push_place(&mut message, value);
            Err(message)
        }
    }

    /// The code of an expression: its lines are written, and the name that
    /// holds its value is returned with the value's kind.
    fn define_operation_node_variables(&mut self, operation_node: &OperationNode) -> (r: Result<
        (String, TokenType),
        String,
    >)
        requires
            has_values(operation_node@),
            all_typed(old(self).state().stack),
            room(old(self).state(), 2 * node_count(operation_node@) as int),
        ensures
            code_is(final(self).state(), r, code_expr(old(self).state(), operation_node@)),
            counted(old(self).state(), final(self).state(), 2 * node_count(operation_node@) as int),
            final(self).state().stack == old(self).state().stack,
        decreases operation_node,
    {
        match &operation_node.operator {
            Some(operator) => {
                let operator = *operator;
                let mut left_variable_name = String::new();
                let mut left_token_type = TokenType::BadToken;
                let mut right_variable_name = String::new();
                let mut right_token_type = TokenType::BadToken;
                proof {
                    lemma_children_counted(operation_node@);
                }
                match &operation_node.left {
                    Some(l) => match self.define_operation_node_variables(&**l) {
                        Ok((name, t)) => {
                            left_variable_name = name;
                            left_token_type = t;
                        },
                        Err(e) => {
                            return Err(e);
                        },
                    },
                    None => {},
                }
                match &operation_node.right {
                    Some(x) => match self.define_operation_node_variables(&**x) {
                        Ok((name, t)) => {
                            right_variable_name = name;
                            right_token_type = t;
                        },
                        Err(e) => {
                            return Err(e);
                        },
                    },
                    None => {},
                }
                if operation_node.left.is_some() && operation_node.right.is_none() {
                    return Ok((left_variable_name, left_token_type));
                } else if operation_node.right.is_some() && operation_node.left.is_none() {
                    return Ok((right_variable_name, right_token_type));
                }
                if operator == OperatorType::Convert {
                    let value = operation_node.value.as_ref().unwrap();
                    let conv = self.generate_input(value);
                    return Ok((conv, value.token_type));
                }
                self.generate_typed(
                    operator,
                    left_variable_name,
                    left_token_type,
                    right_variable_name,
                    right_token_type,
                    operation_node,
                )
            },
            None => self.generate_leaf(operation_node.value.as_ref().unwrap()),
        }
    }
}

/* Statements */

/// The Rust type and the type of the stored variable of a definition of
/// kind `kind`.
pub open spec fn definition_type(kind: StatementType) -> TokenType {
    match kind {
        StatementType::DefineBool => TokenType::Bool,
        StatementType::DefineInt => TokenType::Int,
        StatementType::DefineDouble => TokenType::Double,
        StatementType::DefineChar => TokenType::Char,
        _ => TokenType::String,
    }
}

/// The line that defines `name` as a value of kind `t` held in `from`, by
/// a definition of kind `kind`.
pub open spec fn definition_line(kind: StatementType, name: Seq<char>, from: Seq<char>, t: TokenType) -> Seq<char> {
    let head = "let mut "@ + rust_variable(name);
    match kind {
        StatementType::DefineBool => head + ": bool = "@ + from + ";"@,
        StatementType::DefineInt => head + ": i64 = "@ + from + " as i64;"@,
        StatementType::DefineDouble => head + ": f64 = "@ + from + " as f64;"@,
        StatementType::DefineChar => if t == TokenType::Character {
            head + ": char = "@ + from + ";"@
        } else {
            head + ": char = "@ + from + ".chars().nth(0).unwrap();"@
        },
        _ => head + ": String = "@ + from + ";"@,
    }
}

/// The code of `bool x = e` (or `int`, `double`, `char`, `string`): the
/// expression, the definition, and the variable stored.
pub open spec fn code_definition(c: CodeState, kind: StatementType, name: TokenView, left: OperationNodeView) -> (
    CodeState,
    Option<Seq<char>>,
) {
    let (c1, r) = code_expr(c, left);
    match r {
        Err(m) => (c1, Some(m)),
        Ok((from, t)) => (
            code_store(
                put_line(c1, definition_line(kind, name.value, from, t)),
                fresh_variable(name.value, definition_type(kind)),
            ),
            None,
        ),
    }
}

/// The type of a variable that takes a value of kind `t` without a type of
/// its own.
pub open spec fn var_type(t: TokenType) -> TokenType {
    if t == TokenType::Bool {
        TokenType::Bool
    } else if t == TokenType::IntNumber {
        TokenType::Int
    } else if t == TokenType::DoubleNumber {
        TokenType::Double
    } else if t == TokenType::Character {
        TokenType::Char
    } else {
        TokenType::String
    }
}

/// A new variable `name` that takes the value held in `from`, of kind `t`.
pub open spec fn code_new_variable(c: CodeState, name: Seq<char>, from: Seq<char>, t: TokenType) -> CodeState {
    code_store(
        put_line(c, "let mut "@ + rust_variable(name) + " = "@ + from + ";"@),
        fresh_variable(name, var_type(t)),
    )
}

/// The code of `var x = e`.
pub open spec fn code_var(c: CodeState, name: TokenView, left: OperationNodeView) -> (CodeState, Option<Seq<char>>) {
    let (c1, r) = code_expr(c, left);
    match r {
        Err(m) => (c1, Some(m)),
        Ok((from, t)) => (code_new_variable(c1, name.value, from, t), None),
    }
}

/// The line that assigns the value held in `from`, of kind `t`, with the
/// operator `op`, to the variable `name` of type `vt`.
pub open spec fn assignment_line(vt: TokenType, name: Seq<char>, op: TokenView, from: Seq<char>, t: TokenType) -> Seq<
    char,
> {
    let v = rust_variable(name);
    if vt == TokenType::Double {
        v + " "@ + op.value + " "@ + from + " as f64;"@
    } else if vt == TokenType::Int {
        v + " "@ + op.value + " "@ + from + " as i64;"@
    } else if vt == TokenType::Char {
        if t == TokenType::Character {
            v + " = "@ + from + ";"@
        } else {
            v + " = "@ + from + ".chars().nth(0).unwrap();"@
        }
    } else if vt == TokenType::String {
        if t == TokenType::Character {
            v + ".push("@ + from + ");"@
        } else if op.token_type == TokenType::Assign {
            v + " "@ + op.value + " "@ + from + ".clone();"@
        } else {
            v + " "@ + op.value + " &"@ + from + ".clone();"@
        }
    } else {
        v + " = "@ + from + ";"@
    }
}

/// The code of an assignment `x op e`: of the variable in scope, or of a
/// new one.
pub open spec fn code_assignment(c: CodeState, name: TokenView, op: TokenView, left: OperationNodeView) -> (
    CodeState,
    Option<Seq<char>>,
) {
    let (c1, r) = code_expr(c, left);
    match r {
        Err(m) => (c1, Some(m)),
        Ok((from, t)) => match find_variable(c1.stack, name.value) {
            Some(v) => {
                let vt = match v.variable_type {
                    Some(x) => x,
                    None => arbitrary(),
                };
                (put_line(c1, assignment_line(vt, name.value, op, from, t)), None)
            },
            None => (code_new_variable(c1, name.value, from, t), None),
        },
    }
}

/// The code of `print(x)`: the value is printed and the output flushed.
pub open spec fn code_print(c: CodeState, v: TokenView) -> (CodeState, Option<Seq<char>>) {
    let (c1, r) = code_leaf(c, v);
    match r {
        Err(m) => (c1, Some(m)),
        Ok((name, _)) => {
            let c2 = put_line(c1, "print!(\"{}\", "@ + name + ");"@);
            let c3 = put_line(c2, "if io::stdout().flush().is_err(){"@);
            let c4 = put_line(c3, "panic!(\"Engine Compiler: Compiler Error -> Error in printing to console\");"@);
            (put_line(c4, "}"@), None)
        },
    }
}

/// The state with a new, empty, scope of an `if` block.
pub open spec fn code_push(c: CodeState) -> CodeState {
    CodeState { lines: c.lines, counter: c.counter, stack: c.stack.push(crate::analyzer::if_scope()) }
}

/// The state without its innermost scope.
pub open spec fn code_pop(c: CodeState) -> CodeState {
    CodeState { lines: c.lines, counter: c.counter, stack: c.stack.drop_last() }
}

/// The code of one statement.
pub open spec fn code_statement(c: CodeState, st: StatementNode) -> (CodeState, Option<Seq<char>>)
    decreases st, 0int,
{
    match st.statement_type {
        Some(StatementType::DefineBool) => match st.define_bool_statement {
            Some(d) => code_definition(c, StatementType::DefineBool, token_of(d.name), tree_of(d.left)),
            None => (c, None),
        },
        Some(StatementType::DefineInt) => match st.define_int_statement {
            Some(d) => code_definition(c, StatementType::DefineInt, token_of(d.name), tree_of(d.left)),
            None => (c, None),
        },
        Some(StatementType::DefineDouble) => match st.define_double_statement {
            Some(d) => code_definition(c, StatementType::DefineDouble, token_of(d.name), tree_of(d.left)),
            None => (c, None),
        },
        Some(StatementType::DefineChar) => match st.define_char_statement {
            Some(d) => code_definition(c, StatementType::DefineChar, token_of(d.name), tree_of(d.left)),
            None => (c, None),
        },
        Some(StatementType::DefineString) => match st.define_string_statement {
            Some(d) => code_definition(c, StatementType::DefineString, token_of(d.name), tree_of(d.left)),
            None => (c, None),
        },
        Some(StatementType::DefineVar) => match st.define_var_statement {
            Some(d) => code_var(c, token_of(d.name), tree_of(d.left)),
            None => (c, None),
        },
        Some(StatementType::DefineVariable) => match st.define_variable_statement {
            Some(d) => code_assignment(c, token_of(d.name), token_of(d.operator), tree_of(d.left)),
            None => (c, None),
        },
        Some(StatementType::Print) => match st.define_print_statement {
            Some(d) => code_print(c, token_of(d.variable)),
            None => (c, None),
        },
        Some(StatementType::DefineIf) => match st.define_if_statement {
            Some(ifs) => code_if(c, ifs),
            None => (c, None),
        },
        _ => (c, None),
    }
}

/// The code of the statements of a block from the `i`-th on, up to the
/// first error.
pub open spec fn code_block(c: CodeState, b: StatementsNode, i: int) -> (CodeState, Option<Seq<char>>)
    decreases b, b.statements@.len() - i,
{
    if i < 0 || i >= b.statements@.len() {
        (c, None)
    } else {
        let (c1, e) = code_statement(c, b.statements[i]);
        if e is Some {
            (c1, e)
        } else {
            code_block(c1, b, i + 1)
        }
    }
}

/// The code of one block of an `if` statement, opened by the line
/// `opening`, in a scope of its own, and closed.
pub open spec fn code_branch(c: CodeState, opening: Seq<char>, body: StatementsNode) -> (CodeState, Option<Seq<char>>)
    decreases body, body.statements@.len() + 1,
{
    let (c1, e) = code_block(put_line(code_push(c), opening), body, 0);
    if e is Some {
        (c1, e)
    } else {
        (code_pop(put_line(c1, "}"@)), None)
    }
}

/// The code of the conditions of the `else if` parts from the `j`-th on,
/// with the names that hold them after `names`.
pub open spec fn code_conditions(c: CodeState, ifs: DefineIfStatementNode, j: int, names: Seq<Seq<char>>) -> (
    CodeState,
    Option<Seq<char>>,
    Seq<Seq<char>>,
)
    decreases ifs.define_if_else_nodes@.len() - j,
{
    if j < 0 || j >= ifs.define_if_else_nodes@.len() {
        (c, None, names)
    } else {
        let (c1, r) = code_expr(c, tree_of(ifs.define_if_else_nodes[j].condition));
        match r {
            Err(m) => (c1, Some(m), names),
            Ok((x, _)) => code_conditions(c1, ifs, j + 1, names.push(x)),
        }
    }
}

/// The code of an `if` statement: all its conditions first, then each
/// block in a scope of its own.
pub open spec fn code_if(c: CodeState, ifs: DefineIfStatementNode) -> (CodeState, Option<Seq<char>>)
    decreases ifs, ifs.define_if_else_nodes@.len() + 2,
{
    match ifs.define_if_node {
        None => (c, None),
        Some(n) => {
            let (c1, r) = code_expr(c, tree_of(n.condition));
            match r {
                Err(m) => (c1, Some(m)),
                Ok((first, _)) => {
                    let (c2, e, names) = code_conditions(c1, ifs, 0, Seq::empty());
                    if e is Some {
                        (c2, e)
                    } else {
                        let (c3, e3) = code_branch(c2, "if "@ + first + "{"@, n.statements);
                        if e3 is Some {
                            (c3, e3)
                        } else {
                            code_if_rest(c3, ifs, names)
                        }
                    }
                },
            }
        },
    }
}

/// The code of the `else if` blocks and the `else` block of an `if`
/// statement whose conditions are held in `names`.
pub open spec fn code_if_rest(c: CodeState, ifs: DefineIfStatementNode, names: Seq<Seq<char>>) -> (
    CodeState,
    Option<Seq<char>>,
)
    decreases ifs, ifs.define_if_else_nodes@.len() + 1,
{
    let (c1, e) = code_else_ifs(c, ifs, 0, names);
    if e is Some {
        (c1, e)
    } else {
        match ifs.define_else_node {
            None => (c1, None),
            Some(en) => code_branch(c1, "else {"@, en.statements),
        }
    }
}

/// The code of the `else if` blocks from the `j`-th on.
pub open spec fn code_else_ifs(c: CodeState, ifs: DefineIfStatementNode, j: int, names: Seq<Seq<char>>) -> (
    CodeState,
    Option<Seq<char>>,
)
    decreases ifs, ifs.define_if_else_nodes@.len() - j,
{
    if j < 0 || j >= ifs.define_if_else_nodes@.len() {
        (c, None)
    } else {
        let (c1, e) = code_branch(
            c,
            "else if "@ + names[j] + "{"@,
            ifs.define_if_else_nodes[j].statements,
        );
        if e is Some {
            (c1, e)
        } else {
            code_else_ifs(c1, ifs, j + 1, names)
        }
    }
}

/// The lines that open every generated program: its imports, `main`, and
/// a panic hook that prints the message alone.
pub open spec fn prelude() -> Seq<Seq<char>> {
    seq![
        "#![allow(arithmetic_overflow)]"@,
        "use std::io;"@,
        "use std::panic;"@,
        "fn main(){"@,
        "use std::io::Write;"@,
        "panic::set_hook(Box::new(|panic_info| {"@,
        "if let Some(panic_message) = panic_info.payload().downcast_ref::<String>() {"@,
        "println!(\"{}\", panic_message);"@,
        "} else if let Some(panic_message) = panic_info.payload().downcast_ref::<&str>() {"@,
        "println!(\"{}\", panic_message);"@,
        "} else {"@,
        "println!(\"Engine Compiler -> Interperter Error {}\", panic_info);"@,
        "}"@,
        "}));"@,
    ]
}

/// The code of a whole program: the prelude, the statements, and the end
/// of `main`.
pub open spec fn code_program(c: CodeState, tree: StatementsNode) -> (CodeState, Option<Seq<char>>) {
    let c0 = CodeState { lines: c.lines + prelude(), counter: c.counter, stack: c.stack };
    let (c1, e) = code_block(c0, tree, 0);
    if e is Some {
        (c1, e)
    } else {
        (put_line(c1, "}"@), None)
    }
}

/// The node counts of the conditions of the `else if` parts from the
/// `j`-th on.
pub open spec fn conditions_size(ifs: DefineIfStatementNode, j: int) -> nat
    decreases ifs.define_if_else_nodes@.len() - j,
{
    if j < 0 || j >= ifs.define_if_else_nodes@.len() {
        0
    } else {
        node_count(tree_of(ifs.define_if_else_nodes[j].condition)) + conditions_size(ifs, j + 1)
    }
}

/// The bounds of the blocks of the `else if` parts from the `j`-th on, one
/// more each.
pub open spec fn bodies_size(ifs: DefineIfStatementNode, j: int) -> nat
    decreases ifs.define_if_else_nodes@.len() - j,
{
    if j < 0 || j >= ifs.define_if_else_nodes@.len() {
        0
    } else {
        1 + block_size(ifs.define_if_else_nodes[j].statements, 0) + bodies_size(ifs, j + 1)
    }
}

/// The bound of the `else if` parts splits into their conditions and their
/// blocks.
proof fn lemma_else_ifs_split(ifs: DefineIfStatementNode, j: int)
    requires
        0 <= j,
    ensures
        else_ifs_size(ifs, j) == conditions_size(ifs, j) + bodies_size(ifs, j),
    decreases ifs.define_if_else_nodes@.len() - j,
{
    if j < ifs.define_if_else_nodes@.len() {
        lemma_else_ifs_split(ifs, j + 1);
        let n = ifs.define_if_else_nodes[j];
        assert(else_ifs_size(ifs, j) == branch_size(tree_of(n.condition), n.statements) + else_ifs_size(ifs, j + 1));
        assert(branch_size(tree_of(n.condition), n.statements) == node_count(tree_of(n.condition)) + 1
            + block_size(n.statements, 0));
    }
}

/// The generator is where `expected` says, and its outcome is the one
/// `expected` gives.
pub open spec fn code_done(after: CodeState, r: Result<(), String>, expected: (CodeState, Option<Seq<char>>)) -> bool {
    &&& after == expected.0
    &&& match (r, expected.1) {
        (Ok(()), None) => true,
        (Err(e), Some(m)) => e@ == m,
        _ => false,
    }
}

impl CodeGenerator {
    /// Opens a new, empty, scope of an `if` block.
    fn push_if_scope(&mut self)
        requires
            all_typed(old(self).state().stack),
        ensures
            final(self).state() == code_push(old(self).state()),
            all_typed(final(self).state().stack),
    {
        let ghost c = self.state();
        proof {
            crate::analyzer::lemma_scope_typed(c.stack);
        }
        self.environments_stack.push_back(Environment::new(EnvironmentScope::If));
        assert(self.state().stack =~= c.stack.push(crate::analyzer::if_scope()));
        assert(self.state() =~= code_push(c));
    }

    /// Closes the innermost scope.
    fn pop_if_scope(&mut self)
        requires
            old(self).state().stack.len() > 0,
            all_typed(old(self).state().stack),
        ensures
            final(self).state() == code_pop(old(self).state()),
            all_typed(final(self).state().stack),
    {
        let ghost c = self.state();
        proof {
            crate::analyzer::lemma_scope_typed(c.stack);
        }
        let _ = self.environments_stack.pop_back();
        assert(self.state().stack =~= c.stack.drop_last());
        assert(self.state() =~= code_pop(c));
    }

    /// Stores `variable` under `variable_name`: in the first scope that
    /// holds the name, or else in the innermost one.
    fn insert_variable_into_environments_stack(&mut self, variable_name: String, variable: Variable)
        requires
            old(self).state().stack.len() > 0,
            variable.name == Some(variable_name),
            variable.variable_type is Some,
            all_typed(old(self).state().stack),
        ensures
            final(self).state() == code_store(old(self).state(), variable@),
            all_typed(final(self).state().stack),
            final(self).state().stack.len() == old(self).state().stack.len(),
    {
        let ghost c = self.state();
        store_variable(&mut self.environments_stack, variable_name, variable);
        assert(self.state().lines =~= c.lines);
        assert(self.state() =~= code_store(c, variable@));
    }

    /// A new variable named `name` of type `t` is stored.
    fn store_new(&mut self, name: &String, t: TokenType)
        requires
            old(self).state().stack.len() > 0,
            all_typed(old(self).state().stack),
        ensures
            final(self).state() == code_store(old(self).state(), fresh_variable(name@, t)),
            all_typed(final(self).state().stack),
            final(self).state().stack.len() == old(self).state().stack.len(),
    {
        let mut variable = Variable::new();
        variable.variable_type = Some(t);
        variable.name = Some(name.clone());
        variable.value = None;
        variable.is_reasigned = false;
        self.insert_variable_into_environments_stack(name.clone(), variable);
    }
}

/// `let mut variable_<name>`.
fn definition_head(name: &String) -> (r: String)
    ensures
        r@ == "let mut "@ + rust_variable(name@),
{
    let mut r = String::from_str("let mut ");
    r.append("variable_");
    r.append(name.as_str());
    assert(r@ =~= "let mut "@ + rust_variable(name@));
    r
}

impl CodeGenerator {
    /// The code of `bool x = e` (or `int`, `double`, `char`, `string`).
    fn generate_definition(&mut self, kind: StatementType, name: &Token, left: &OperationNode) -> (r: Result<(), String>)
        requires
            has_values(left@),
            old(self).state().stack.len() > 0,
            all_typed(old(self).state().stack),
            room(old(self).state(), 2 * node_count(left@) as int),
        ensures
            code_done(final(self).state(), r, code_definition(old(self).state(), kind, name@, left@)),
            all_typed(final(self).state().stack),
            final(self).state().stack.len() == old(self).state().stack.len(),
            counted(old(self).state(), final(self).state(), 2 * node_count(left@) as int),
    {
        let (from, t) = match self.define_operation_node_variables(left) {
            Ok(x) => x,
            Err(e) => {
                return Err(e);
            },
        };
        let mut text = definition_head(&name.value);
        let vt = match kind {
            StatementType::DefineBool => {
                text.append(": bool = ");
                text.append(from.as_str());
                text.append(";");
                TokenType::Bool
            },
            StatementType::DefineInt => {
                text.append(": i64 = ");
                text.append(from.as_str());
                text.append(" as i64;");
                TokenType::Int
            },
            StatementType::DefineDouble => {
                text.append(": f64 = ");
                text.append(from.as_str());
                text.append(" as f64;");
                TokenType::Double
            },
            StatementType::DefineChar => {
                text.append(": char = ");
                text.append(from.as_str());
                if t == TokenType::Character {
                    text.append(";");
                } else {
                    text.append(".chars().nth(0).unwrap();");
                }
                TokenType::Char
            },
            _ => {
                text.append(": String = ");
                text.append(from.as_str());
                text.append(";");
                TokenType::String
            },
        };
        self.writeln(text);
        self.store_new(&name.value, vt);
        Ok(())
    }

    /// A new variable `name` that takes the value held in `from`, of kind
    /// `t`.
    fn define_new_variable(&mut self, name: &String, from: &String, t: TokenType)
        requires
            old(self).state().stack.len() > 0,
            all_typed(old(self).state().stack),
        ensures
            final(self).state() == code_new_variable(old(self).state(), name@, from@, t),
            all_typed(final(self).state().stack),
            final(self).state().stack.len() == old(self).state().stack.len(),
    {
        let mut text = definition_head(name);
        text.append(" = ");
        text.append(from.as_str());
        text.append(";");
        self.writeln(text);
        let vt = if t == TokenType::Bool {
            TokenType::Bool
        } else if t == TokenType::IntNumber {
            TokenType::Int
        } else if t == TokenType::DoubleNumber {
            TokenType::Double
        } else if t == TokenType::Character {
            TokenType::Char
        } else {
            TokenType::String
        };
        self.store_new(name, vt);
    }

    /// The code of `var x = e`.
    fn generate_define_var_variable(&mut self, name: &Token, left: &OperationNode) -> (r: Result<(), String>)
        requires
            has_values(left@),
            old(self).state().stack.len() > 0,
            all_typed(old(self).state().stack),
            room(old(self).state(), 2 * node_count(left@) as int),
        ensures
            code_done(final(self).state(), r, code_var(old(self).state(), name@, left@)),
            all_typed(final(self).state().stack),
            final(self).state().stack.len() == old(self).state().stack.len(),
            counted(old(self).state(), final(self).state(), 2 * node_count(left@) as int),
    {
        let (from, t) = match self.define_operation_node_variables(left) {
            Ok(x) => x,
            Err(e) => {
                return Err(e);
            },
        };
        self.define_new_variable(&name.value, &from, t);
        Ok(())
    }

    /// The code of an assignment `x op e`.
    fn generate_define_variable(&mut self, name: &Token, operator: &Token, left: &OperationNode) -> (r: Result<
        (),
        String,
    >)
        requires
            has_values(left@),
            old(self).state().stack.len() > 0,
            all_typed(old(self).state().stack),
            room(old(self).state(), 2 * node_count(left@) as int),
        ensures
            code_done(final(self).state(), r, code_assignment(old(self).state(), name@, operator@, left@)),
            all_typed(final(self).state().stack),
            final(self).state().stack.len() == old(self).state().stack.len(),
            counted(old(self).state(), final(self).state(), 2 * node_count(left@) as int),
    {
        let (from, t) = match self.define_operation_node_variables(left) {
            Ok(x) => x,
            Err(e) => {
                return Err(e);
            },
        };
        match variable_type_in(&self.environments_stack, &name.value) {
            Ok(variable_type) => {
                let mut text = String::from_str("variable_");
                text.append(name.value.as_str());
                if variable_type == TokenType::Double {
                    text.append(" ");
                    text.append(operator.value.as_str());
                    text.append(" ");
                    text.append(from.as_str());
                    text.append(" as f64;");
                } else if variable_type == TokenType::Int {
                    text.append(" ");
                    text.append(operator.value.as_str());
                    text.append(" ");
                    text.append(from.as_str());
                    text.append(" as i64;");
                } else if variable_type == TokenType::Char {
                    text.append(" = ");
                    text.append(from.as_str());
                    if t == TokenType::Character {
                        text.append(";");
                    } else {
                        text.append(".chars().nth(0).unwrap();");
                    }
                } else if variable_type == TokenType::String {
                    if t == TokenType::Character {
                        text.append(".push(");
                        text.append(from.as_str());
                        text.append(");");
                    } else if operator.token_type == TokenType::Assign {
                        text.append(" ");
                        text.append(operator.value.as_str());
                        text.append(" ");
                        text.append(from.as_str());
                        text.append(".clone();");
                    } else {
                        text.append(" ");
                        text.append(operator.value.as_str());
                        text.append(" &");
                        text.append(from.as_str());
                        text.append(".clone();");
                    }
                } else {
                    text.append(" = ");
                    text.append(from.as_str());
                    text.append(";");
                }
                self.writeln(text);
            },
            Err(_) => {
                self.define_new_variable(&name.value, &from, t);
            },
        }
        Ok(())
    }

    /// The code of `print(x)`.
    fn generate_define_print_variable(&mut self, variable: &Token) -> (r: Result<(), String>)
        requires
            room(old(self).state(), 1),
            all_typed(old(self).state().stack),
        ensures
            code_done(final(self).state(), r, code_print(old(self).state(), variable@)),
            final(self).state().stack == old(self).state().stack,
            counted(old(self).state(), final(self).state(), 1),
    {
        let (name, _) = match self.generate_leaf(variable) {
            Ok(x) => x,
            Err(e) => {
                return Err(e);
            },
        };
        let mut text = String::from_str("print!(\"{}\", ");
        text.append(name.as_str());
        text.append(");");
        self.writeln(text);
        self.writeln(String::from_str("if io::stdout().flush().is_err(){"));
        self.writeln(
            String::from_str("panic!(\"Engine Compiler: Compiler Error -> Error in printing to console\");"),
        );
        self.writeln(String::from_str("}"));
        Ok(())
    }
}

/// Names as views.
pub open spec fn names_view(v: Seq<String>) -> Seq<Seq<char>> {
    v.map_values(|s: String| s@)
}

impl CodeGenerator {
    /// The code of the statements of a block, in order, up to the first
    /// error.
    fn generate_statements_node(&mut self, block: &StatementsNode) -> (r: Result<(), String>)
        requires
            block_ready(*block, 0),
            old(self).state().stack.len() > 0,
            all_typed(old(self).state().stack),
            room(old(self).state(), (2 * block_size(*block, 0)) as int),
        ensures
            code_done(final(self).state(), r, code_block(old(self).state(), *block, 0)),
            all_typed(final(self).state().stack),
            r is Ok ==> final(self).state().stack.len() == old(self).state().stack.len(),
            counted(old(self).state(), final(self).state(), (2 * block_size(*block, 0)) as int),
        decreases *block, block.statements@.len(),
    {
        let ghost c0 = self.state();
        let ghost total = block_size(*block, 0);
        let mut i: usize = 0;
        while i < block.statements.len()
            invariant
                i <= block.statements@.len(),
                c0 == old(self).state(),
                total == block_size(*block, 0),
                block_ready(*block, i as int),
                all_typed(self.state().stack),
                self.state().stack.len() == c0.stack.len(),
                c0.stack.len() > 0,
                code_block(c0, *block, 0) == code_block(self.state(), *block, i as int),
                room(c0, (2 * total) as int),
                counted(c0, self.state(), 2 * (total - block_size(*block, i as int))),
            decreases block.statements@.len() - i,
        {
            assert(block_size(*block, i as int) == statement_size(block.statements[i as int]) + block_size(
                *block,
                i + 1,
            ));
            match self.generate_statement_node(&block.statements[i]) {
                Ok(()) => {},
                Err(e) => {
                    return Err(e);
                },
            }
            i = i + 1;
        }
        Ok(())
    }

    /// The code of one statement.
    fn generate_statement_node(&mut self, statement: &StatementNode) -> (r: Result<(), String>)
        requires
            statement_ready(*statement),
            old(self).state().stack.len() > 0,
            all_typed(old(self).state().stack),
            room(old(self).state(), (2 * statement_size(*statement)) as int),
        ensures
            code_done(final(self).state(), r, code_statement(old(self).state(), *statement)),
            all_typed(final(self).state().stack),
            r is Ok ==> final(self).state().stack.len() == old(self).state().stack.len(),
            counted(old(self).state(), final(self).state(), (2 * statement_size(*statement)) as int),
        decreases *statement, 0int,
    {
        match statement.statement_type {
            Some(StatementType::DefineBool) => {
                let d = statement.define_bool_statement.as_ref().unwrap();
                self.generate_definition(StatementType::DefineBool, d.name.as_ref().unwrap(), d.left.as_ref().unwrap())
            },
            Some(StatementType::DefineInt) => {
                let d = statement.define_int_statement.as_ref().unwrap();
                self.generate_definition(StatementType::DefineInt, d.name.as_ref().unwrap(), d.left.as_ref().unwrap())
            },
            Some(StatementType::DefineDouble) => {
                let d = statement.define_double_statement.as_ref().unwrap();
                self.generate_definition(
                    StatementType::DefineDouble,
                    d.name.as_ref().unwrap(),
                    d.left.as_ref().unwrap(),
                )
            },
            Some(StatementType::DefineChar) => {
                let d = statement.define_char_statement.as_ref().unwrap();
                self.generate_definition(StatementType::DefineChar, d.name.as_ref().unwrap(), d.left.as_ref().unwrap())
            },
            Some(StatementType::DefineString) => {
                let d = statement.define_string_statement.as_ref().unwrap();
                self.generate_definition(
                    StatementType::DefineString,
                    d.name.as_ref().unwrap(),
                    d.left.as_ref().unwrap(),
                )
            },
            Some(StatementType::DefineVar) => {
                let d = statement.define_var_statement.as_ref().unwrap();
                self.generate_define_var_variable(d.name.as_ref().unwrap(), d.left.as_ref().unwrap())
            },
            Some(StatementType::DefineVariable) => {
                let d = statement.define_variable_statement.as_ref().unwrap();
                self.generate_define_variable(
                    d.name.as_ref().unwrap(),
                    d.operator.as_ref().unwrap(),
                    d.left.as_ref().unwrap(),
                )
            },
            Some(StatementType::Print) => {
                let d = statement.define_print_statement.as_ref().unwrap();
                self.generate_define_print_variable(d.variable.as_ref().unwrap())
            },
            Some(StatementType::DefineIf) => {
                self.generate_define_if_statement(statement.define_if_statement.as_ref().unwrap())
            },
            _ => Ok(()),
        }
    }

    /// The code of one block of an `if` statement: a scope of its own, the
    /// line `opening`, the statements, and `}`.
    fn generate_branch(&mut self, opening: String, body: &StatementsNode) -> (r: Result<(), String>)
        requires
            block_ready(*body, 0),
            old(self).state().stack.len() > 0,
            all_typed(old(self).state().stack),
            room(old(self).state(), (2 * block_size(*body, 0)) as int),
        ensures
            code_done(final(self).state(), r, code_branch(old(self).state(), opening@, *body)),
            all_typed(final(self).state().stack),
            r is Ok ==> final(self).state().stack.len() == old(self).state().stack.len(),
            counted(old(self).state(), final(self).state(), (2 * block_size(*body, 0)) as int),
        decreases *body, body.statements@.len() + 1,
    {
        self.push_if_scope();
        self.writeln(opening);
        match self.generate_statements_node(body) {
            Ok(()) => {},
            Err(e) => {
                return Err(e);
            },
        }
        self.writeln(String::from_str("}"));
        self.pop_if_scope();
        Ok(())
    }

    /// The code of an `if` statement: all its conditions first, then each
    /// block in a scope of its own.
    #[verifier::rlimit(40)]
    fn generate_define_if_statement(&mut self, statement: &DefineIfStatementNode) -> (r: Result<(), String>)
        requires
            if_ready(*statement),
            old(self).state().stack.len() > 0,
            all_typed(old(self).state().stack),
            room(old(self).state(), (2 * if_size(*statement)) as int),
        ensures
            code_done(final(self).state(), r, code_if(old(self).state(), *statement)),
            all_typed(final(self).state().stack),
            r is Ok ==> final(self).state().stack.len() == old(self).state().stack.len(),
            counted(old(self).state(), final(self).state(), (2 * if_size(*statement)) as int),
        decreases *statement, statement.define_if_else_nodes@.len() + 2,
    {
        let ghost c0 = self.state();
        let ghost total = if_size(*statement);
        let define_if_node = statement.define_if_node.as_ref().unwrap();
        let ghost nc0 = node_count(define_if_node.condition.unwrap()@);
        let ghost b0 = block_size(define_if_node.statements, 0);
        proof {
            lemma_else_ifs_split(*statement, 0);
        }
        let ghost cs0 = conditions_size(*statement, 0);
        let ghost bs0 = bodies_size(*statement, 0);
        assert(total >= nc0 + 1 + b0 + cs0 + bs0);
        let (first, t0) = match self.define_operation_node_variables(define_if_node.condition.as_ref().unwrap()) {
            Ok(x) => x,
            Err(e) => {
                return Err(e);
            },
        };
        let ghost c1 = self.state();
        let mut names: Vec<String> = Vec::new();
        assert(names_view(names@) =~= Seq::<Seq<char>>::empty());
        let mut j: usize = 0;
        while j < statement.define_if_else_nodes.len()
            invariant
                j <= statement.define_if_else_nodes@.len(),
                names@.len() == j,
                c0 == old(self).state(),
                total == if_size(*statement),
                cs0 == conditions_size(*statement, 0),
                total >= nc0 + 1 + b0 + cs0 + bs0,
                room(c0, (2 * total) as int),
                if_ready(*statement),
                else_ifs_ready(*statement, j as int),
                code_expr(c0, tree_of(statement.define_if_node.unwrap().condition)) == (c1, Ok::<
                    (Seq<char>, TokenType),
                    Seq<char>,
                >((first@, t0))),
                code_conditions(c1, *statement, 0, Seq::empty()) == code_conditions(
                    self.state(),
                    *statement,
                    j as int,
                    names_view(names@),
                ),
                all_typed(self.state().stack),
                self.state().stack == c0.stack,
                c0.stack.len() > 0,
                counted(c0, self.state(), 2 * (nc0 + cs0 - conditions_size(*statement, j as int))),
            decreases statement.define_if_else_nodes@.len() - j,
        {
            let define_if_else_node = &statement.define_if_else_nodes[j];
            assert(else_if_ready(*define_if_else_node));
            assert(conditions_size(*statement, j as int) == node_count(define_if_else_node.condition.unwrap()@)
                + conditions_size(*statement, j + 1));
            let (x, _) = match self.define_operation_node_variables(define_if_else_node.condition.as_ref().unwrap()) {
                Ok(x) => x,
                Err(e) => {
                    return Err(e);
                },
            };
            let ghost nv = names_view(names@);
            names.push(x);
            assert(names_view(names@) =~= nv.push(x@));
            j = j + 1;
        }
        let ghost nv = names_view(names@);
        let ghost c2 = self.state();
        let mut opening = String::from_str("if ");
        opening.append(first.as_str());
        opening.append("{");
        match self.generate_branch(opening, &define_if_node.statements) {
            Ok(()) => {},
            Err(e) => {
                return Err(e);
            },
        }
        let ghost c3 = self.state();
        assert(code_if(c0, *statement) == code_if_rest(c3, *statement, nv));
        let mut j: usize = 0;
        while j < statement.define_if_else_nodes.len()
            invariant
                j <= statement.define_if_else_nodes@.len(),
                names@.len() == statement.define_if_else_nodes@.len(),
                nv == names_view(names@),
                c0 == old(self).state(),
                total == if_size(*statement),
                bs0 == bodies_size(*statement, 0),
                total >= nc0 + 1 + b0 + cs0 + bs0,
                room(c0, (2 * total) as int),
                if_ready(*statement),
                else_ifs_ready(*statement, j as int),
                code_if(c0, *statement) == code_if_rest(c3, *statement, nv),
                code_else_ifs(c3, *statement, 0, nv) == code_else_ifs(self.state(), *statement, j as int, nv),
                all_typed(self.state().stack),
                self.state().stack.len() == c0.stack.len(),
                c0.stack.len() > 0,
                counted(c0, self.state(), 2 * (nc0 + cs0 + b0 + bs0 - bodies_size(*statement, j as int))),
            decreases statement.define_if_else_nodes@.len() - j,
        {
            let define_if_else_node = &statement.define_if_else_nodes[j];
            assert(else_if_ready(*define_if_else_node));
            assert(bodies_size(*statement, j as int) == 1 + block_size(define_if_else_node.statements, 0)
                + bodies_size(*statement, j + 1));
            let mut opening = String::from_str("else if ");
            opening.append(names[j].as_str());
            opening.append("{");
            match self.generate_branch(opening, &define_if_else_node.statements) {
                Ok(()) => {},
                Err(e) => {
                    return Err(e);
                },
            }
            j = j + 1;
        }
        match &statement.define_else_node {
            Some(define_else_node) => {
                assert(total == nc0 + 1 + b0 + cs0 + bs0 + 1 + block_size(define_else_node.statements, 0));
                self.generate_branch(String::from_str("else {"), &define_else_node.statements)
            },
            None => Ok(()),
        }
    }
}

/// Writes the program for the generator's tree: the prelude, the
/// statements, and the end of `main`; the first error stops it.
pub fn generate(code_generator: &mut CodeGenerator) -> (r: Result<(), String>)
    requires
        block_ready(old(code_generator).tree(), 0),
        old(code_generator).state().stack.len() > 0,
        all_typed(old(code_generator).state().stack),
        room(old(code_generator).state(), (2 * block_size(old(code_generator).tree(), 0)) as int),
    ensures
        final(code_generator).tree() == old(code_generator).tree(),
        code_done(final(code_generator).state(), r, code_program(old(code_generator).state(), old(code_generator).tree())),
        r is Ok ==> final(code_generator).state().stack.len() == old(code_generator).state().stack.len(),
{
    let ghost c = code_generator.state();
    let mut tree = StatementsNode::new();
    std::mem::swap(&mut tree, &mut code_generator.syntax_tree);
    code_generator.writeln(String::from_str("#![allow(arithmetic_overflow)]"));
    code_generator.writeln(String::from_str("use std::io;"));
    code_generator.writeln(String::from_str("use std::panic;"));
    code_generator.writeln(String::from_str("fn main(){"));
    code_generator.writeln(String::from_str("use std::io::Write;"));
    code_generator.writeln(String::from_str("panic::set_hook(Box::new(|panic_info| {"));
    code_generator.writeln(
        String::from_str("if let Some(panic_message) = panic_info.payload().downcast_ref::<String>() {"),
    );
    code_generator.writeln(String::from_str("println!(\"{}\", panic_message);"));
    code_generator.writeln(
        String::from_str("} else if let Some(panic_message) = panic_info.payload().downcast_ref::<&str>() {"),
    );
    code_generator.writeln(String::from_str("println!(\"{}\", panic_message);"));
    code_generator.writeln(String::from_str("} else {"));
    code_generator.writeln(String::from_str("println!(\"Engine Compiler -> Interperter Error {}\", panic_info);"));
    code_generator.writeln(String::from_str("}"));
    code_generator.writeln(String::from_str("}));"));
    assert(code_generator.state().lines =~= c.lines + prelude());
    assert(code_generator.state() =~= CodeState { lines: c.lines + prelude(), counter: c.counter, stack: c.stack });
    let r = code_generator.generate_statements_node(&tree);
    if r.is_ok() {
        code_generator.writeln(String::from_str("}"));
    }
    std::mem::swap(&mut tree, &mut code_generator.syntax_tree);
    r
}

/* The order of operands */

/// The infix text `left sym right`.
pub open spec fn infix(left: Seq<char>, sym: Seq<char>, right: Seq<char>) -> Seq<char> {
    left + " "@ + sym + " "@ + right
}

/// `x` cast to the Rust type `ty`.
pub open spec fn cast(x: Seq<char>, ty: Seq<char>) -> Seq<char> {
    x + " as "@ + ty
}

/// The text of a character operand as a `String`, or of a string operand.
pub open spec fn as_text(x: Seq<char>, t: TokenType) -> Seq<char> {
    if t == TokenType::Character {
        "String::from("@ + x + ")"@
    } else {
        x + ".clone()"@
    }
}

/// Two texts joined, the left one first.
pub open spec fn text_join(ln: Seq<char>, lt: TokenType, rn: Seq<char>, rt: TokenType) -> Seq<char> {
    as_text(ln, lt) + " + &"@ + as_text(rn, rt)
}

/// The line that binds the temporary `t`, of the Rust type `ty`, to `e`.
pub open spec fn let_line(t: Seq<char>, ty: Seq<char>, e: Seq<char>) -> Seq<char> {
    "let mut "@ + t + ": "@ + ty + " = "@ + e + ";"@
}

/// An arithmetic operation or a comparison adds one line, which binds a
/// new temporary to the source's infix form: the left operand, the
/// operator's symbol and the right operand, in that order. The operands are
/// cast to `f64` where either is a double or integers are divided, and to
/// `i64` for the other integer arithmetic; comparisons of integers and
/// operations of booleans use the operands as they are.
pub proof fn lemma_operands_keep_their_order(
    c: CodeState,
    op: OperatorType,
    ln: Seq<char>,
    lt: TokenType,
    rn: Seq<char>,
    rt: TokenType,
    n: OperationNodeView,
)
    ensures
        ({
            let (c1, r) = code_typed(c, op, ln, lt, rn, rt, n);
            let sym = value_of(n).value;
            let double = lt == TokenType::DoubleNumber || rt == TokenType::DoubleNumber;
            let integer = lt == TokenType::IntNumber || rt == TokenType::IntNumber;
            &&& double ==> (r matches Ok((t, _)) && c1.lines == c.lines.push(
                let_line(
                    t,
                    if is_arithmetic(op) {
                        "f64"@
                    } else {
                        "bool"@
                    },
                    infix(cast(ln, "f64"@), sym, cast(rn, "f64"@)),
                ),
            ))
            &&& !double && integer && is_arithmetic(op) && op != OperatorType::Div ==> (r matches Ok((t, _))
                && c1.lines == c.lines.push(let_line(t, "i64"@, infix(cast(ln, "i64"@), sym, cast(rn, "i64"@)))))
            &&& !double && integer && op == OperatorType::Div ==> (r matches Ok((t, _)) && c1.lines == c.lines.push(
                let_line(t, "f64"@, infix(cast(ln, "f64"@), sym, cast(rn, "f64"@))),
            ))
            &&& !double && integer && !is_arithmetic(op) ==> (r matches Ok((t, _)) && c1.lines == c.lines.push(
                let_line(t, "bool"@, infix(ln, sym, rn)),
            ))
            &&& !double && !integer && !(lt == TokenType::StringSequence || rt == TokenType::StringSequence
                || lt == TokenType::Character || rt == TokenType::Character) && (lt == TokenType::Bool || lt
                == TokenType::True || lt == TokenType::False || rt == TokenType::Bool || rt == TokenType::True || rt
                == TokenType::False) ==> (r matches Ok((t, _)) && c1.lines == c.lines.push(
                let_line(t, "bool"@, infix(ln, sym, rn)),
            ))
            &&& !double && !integer && !(lt == TokenType::StringSequence || rt == TokenType::StringSequence) && (lt
                == TokenType::Character || rt == TokenType::Character) ==> (r matches Ok((t, _)) && c1.lines
                == c.lines.push(let_line(t, "String"@, text_join(ln, TokenType::Character, rn, TokenType::Character))))
            &&& !double && !integer && (lt == TokenType::StringSequence || rt == TokenType::StringSequence) && (lt
                == TokenType::Character || rt == TokenType::Character) ==> (r matches Ok((t, _)) && c1.lines
                == c.lines.push(let_line(t, "String"@, text_join(ln, lt, rn, rt))))
        }),
{
    reveal(code_typed);
    reveal_strlit(" as f64 ");
    reveal_strlit(" as f64");
    reveal_strlit(" as i64 ");
    reveal_strlit(" as i64");
    reveal_strlit(" as ");
    reveal_strlit(" ");
    reveal_strlit("f64");
    reveal_strlit("i64");
    let sym = value_of(n).value;
    assert(ln + " as f64 "@ + sym + " "@ + rn + " as f64"@ =~= infix(cast(ln, "f64"@), sym, cast(rn, "f64"@)));
    assert(ln + " as i64 "@ + sym + " "@ + rn + " as i64"@ =~= infix(cast(ln, "i64"@), sym, cast(rn, "i64"@)));
    reveal_strlit("String::from(");
    reveal_strlit(")");
    reveal_strlit(".clone()");
    reveal_strlit(" + &");
    reveal_strlit(") + &String::from(");
    reveal_strlit(") + &");
    reveal_strlit(".clone();");
    reveal_strlit(".clone() + &");
    reveal_strlit(".clone() + &String::from(");
    reveal_strlit(");");
    reveal_strlit("let mut ");
    reveal_strlit(": String = ");
    reveal_strlit(": String = String::from(");
    reveal_strlit(": ");
    reveal_strlit(" = ");
    reveal_strlit(";");
    reveal_strlit("String");
    let t = temporary(c).1;
    assert("String::from("@ + ln + ") + &String::from("@ + rn + ")"@ =~= text_join(ln, TokenType::Character, rn, TokenType::Character));
    assert("let mut "@ + t + ": String = String::from("@ + ln + ") + &"@ + rn + ".clone();"@ =~= let_line(t, "String"@, text_join(ln, TokenType::Character, rn, TokenType::StringSequence)));
    assert("let mut "@ + t + ": String = "@ + ln + ".clone() + &String::from("@ + rn + ");"@ =~= let_line(t, "String"@, text_join(ln, TokenType::StringSequence, rn, TokenType::Character)));
}

} // verus!
