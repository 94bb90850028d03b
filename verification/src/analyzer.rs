use std::collections::VecDeque;

use vstd::prelude::*;
use vstd::string::*;

use crate::constants::{mode_text, Mode};
use crate::environments::{
    all_typed, find_var, is_named, find_variable, lemma_find_var_member, lemma_put_find_var,
    lemma_put_var_members, put_var, Environment, EnvironmentScope, EnvironmentView, Variable,
    VariableView,
};
use crate::parser::{kind_name, kind_name_string, syntax_error, syntax_error_string};
use crate::syntax_tree::{
    block_ready, else_if_ready, else_ifs_ready, has_values, if_ready, statement_ready, DefineBoolNode, DefineCharNode, DefineDoubleNode, DefineIfStatementNode, DefineIntNode,
    DefinePrintNode, DefineStringNode, DefineVarNode, DefineVariableNode, OperationNode,
    OperationNodeView, OperatorType, StatementNode, StatementType, StatementsNode,
};
use crate::text::{decimal_text, push_decimal};
use vstd::std_specs::vecdeque::VecDequeAdditionalSpecFns;
use crate::tokens::{Token, TokenType, TokenView};

verus! {

/* The type rules of expressions */

/// The name of an operator, as `{:?}` prints it.
pub open spec fn operator_name(op: OperatorType) -> Seq<char> {
    match op {
        OperatorType::Plus => "Plus"@,
        OperatorType::Minus => "Minus"@,
        OperatorType::Mul => "Mul"@,
        OperatorType::Div => "Div"@,
        OperatorType::Mod => "Mod"@,
        OperatorType::Convert => "Convert"@,
        OperatorType::Equal => "Equal"@,
        OperatorType::GreaterThanOrEqual => "GreaterThanOrEqual"@,
        OperatorType::GreaterThan => "GreaterThan"@,
        OperatorType::LessThanOrEqual => "LessThanOrEqual"@,
        OperatorType::LessThan => "LessThan"@,
        OperatorType::NotEqual => "NotEqual"@,
        OperatorType::Or => "Or"@,
        OperatorType::And => "And"@,
    }
}

/// The token of a node.
pub open spec fn value_of(n: OperationNodeView) -> TokenView {
    match n.value {
        Some(t) => t,
        None => arbitrary(),
    }
}

/// The token of a node's right operand.
pub open spec fn right_value(n: OperationNodeView) -> TokenView {
    match n.right {
        Some(r) => value_of(*r),
        None => arbitrary(),
    }
}

/// `bool` and its two literals.
pub open spec fn is_boolean(t: TokenType) -> bool {
    t == TokenType::Bool || t == TokenType::True || t == TokenType::False
}

/// The type an expression has when it reads a variable of type `t`.
pub open spec fn read_type(t: TokenType) -> TokenType {
    if t == TokenType::True || t == TokenType::False {
        TokenType::Bool
    } else if t == TokenType::Int {
        TokenType::IntNumber
    } else if t == TokenType::Double {
        TokenType::DoubleNumber
    } else if t == TokenType::String {
        TokenType::StringSequence
    } else if t == TokenType::Char {
        TokenType::Character
    } else {
        t
    }
}

/// The longest literal the compiler accepts for a number, in digits.
pub open spec fn literal_limit() -> int {
    18
}

/// The type of a leaf: a literal's own kind, or what a variable holds.
pub open spec fn leaf_type(stack: Seq<EnvironmentView>, t: TokenView, mode: Mode) -> Result<
    TokenType,
    Seq<char>,
> {
    if t.token_type == TokenType::Variable {
        match find_variable(stack, t.value) {
            None => Err(syntax_error(mode, "Undefined variable `"@ + t.value + "`"@, t)),
            Some(v) => Ok(
                read_type(
                    match v.variable_type {
                        Some(x) => x,
                        None => arbitrary(),
                    },
                ),
            ),
        }
    } else if mode == Mode::Compiler && t.token_type == TokenType::IntNumber && t.value.len()
        > literal_limit() {
        Err(syntax_error(mode, "The litral `"@ + t.value + "` does not fit into int type"@, t))
    } else if mode == Mode::Compiler && t.token_type == TokenType::DoubleNumber && t.value.len()
        > literal_limit() {
        Err(syntax_error(mode, "The litral `"@ + t.value + "` does not fit into double type"@, t))
    } else {
        Ok(t.token_type)
    }
}

/// The operators that give a number of two integers.
pub open spec fn is_integer_operator(op: OperatorType) -> bool {
    op == OperatorType::Plus || op == OperatorType::Minus || op == OperatorType::Mul || op
        == OperatorType::Mod
}

/// The operators that apply to booleans.
pub open spec fn is_boolean_operator(op: OperatorType) -> bool {
    op == OperatorType::And || op == OperatorType::Or || op == OperatorType::Equal || op
        == OperatorType::NotEqual
}

/// The type of an operation of `op` on operands of types `lt` and `rt`;
/// `n` is the operation's node, where errors are reported.
pub open spec fn operation_type(
    op: OperatorType,
    lt: TokenType,
    rt: TokenType,
    n: OperationNodeView,
    mode: Mode,
) -> Result<TokenType, Seq<char>> {
    let v = value_of(n);
    let name = operator_name(op);
    if op == OperatorType::Convert && v.token_type == TokenType::Bool {
        Ok(TokenType::Bool)
    } else if op == OperatorType::Convert && v.token_type == TokenType::Int {
        Ok(TokenType::IntNumber)
    } else if op == OperatorType::Convert && v.token_type == TokenType::Double {
        Ok(TokenType::DoubleNumber)
    } else if op == OperatorType::Convert && v.token_type == TokenType::Char {
        Ok(TokenType::Character)
    } else if op == OperatorType::Convert && v.token_type == TokenType::String {
        Ok(TokenType::StringSequence)
    } else if lt == TokenType::StringSequence || rt == TokenType::StringSequence {
        let other = if lt == TokenType::StringSequence {
            rt
        } else {
            lt
        };
        if other != TokenType::StringSequence && other != TokenType::Character {
            Err(
                syntax_error(
                    mode,
                    "Can't concate `"@ + kind_name(other) + "` with String types"@,
                    right_value(n),
                ),
            )
        } else if op != OperatorType::Plus {
            Err(syntax_error(mode, "Invalid operation "@ + name + " on String Types"@, v))
        } else {
            Ok(TokenType::StringSequence)
        }
    } else if lt == TokenType::Character || rt == TokenType::Character {
        let other = if lt == TokenType::Character {
            rt
        } else {
            lt
        };
        if other != TokenType::Character {
            Err(
                syntax_error(
                    mode,
                    "Can't concate `"@ + kind_name(other) + "` with Character types"@,
                    right_value(n),
                ),
            )
        } else if op != OperatorType::Plus {
            Err(syntax_error(mode, "Invalid operation "@ + name + " on Character types"@, v))
        } else {
            Ok(TokenType::StringSequence)
        }
    } else if lt == TokenType::IntNumber || rt == TokenType::IntNumber {
        let (first, second) = if lt == TokenType::IntNumber {
            (lt, rt)
        } else {
            (rt, lt)
        };
        if second != TokenType::IntNumber && second != TokenType::DoubleNumber {
            Err(
                syntax_error(
                    mode,
                    "Invalid operation "@ + name + " on "@ + kind_name(first) + " and "@ + kind_name(
                        second,
                    ),
                    v,
                ),
            )
        } else if is_integer_operator(op) {
            Ok(TokenType::IntNumber)
        } else if op == OperatorType::Div {
            Ok(TokenType::DoubleNumber)
        } else {
            Ok(TokenType::Bool)
        }
    } else if is_boolean(lt) || is_boolean(rt) {
        if !(is_boolean(lt) && is_boolean(rt)) || !is_boolean_operator(op) {
            Err(syntax_error(mode, "Invalid operation "@ + name + " on Boolean types"@, v))
        } else {
            Ok(TokenType::Bool)
        }
    } else {
        Err(syntax_error(mode, "Undefined operator "@ + name + " behavior"@, v))
    }
}

/// The type of an expression, or the error that the analyzer reports of it,
/// with the variables of `stack` in scope.
pub open spec fn node_type(stack: Seq<EnvironmentView>, n: OperationNodeView, mode: Mode) -> Result<
    TokenType,
    Seq<char>,
>
    decreases n,
{
    match n.operator {
        None => leaf_type(stack, value_of(n), mode),
        Some(op) => {
            let lr = match n.left {
                Some(l) => node_type(stack, *l, mode),
                None => Ok(TokenType::BadToken),
            };
            match lr {
                Err(m) => Err(m),
                Ok(lt) => {
                    let rr = match n.right {
                        Some(r) => node_type(stack, *r, mode),
                        None => Ok(TokenType::BadToken),
                    };
                    match rr {
                        Err(m) => Err(m),
                        Ok(rt) => if n.left is Some && n.right is None {
                            Ok(lt)
                        } else if n.right is Some && n.left is None {
                            Ok(rt)
                        } else {
                            operation_type(op, lt, rt, n, mode)
                        },
                    }
                },
            }
        },
    }
}

/* The analyzer */

/// Checks the types of statements against the variables in scope.
#[derive(Debug)]
pub struct Analyzer {
    /// The scopes, the outermost at the front.
    pub environments_stack: VecDeque<Environment>,
    /// The part of the tool chain that reports the errors.
    pub mode: Mode,
}

/// The scopes of the analyzer as views.
pub open spec fn stack_of(a: Analyzer) -> Seq<EnvironmentView> {
    scopes(a.environments_stack@)
}

/// Scopes as views.
pub open spec fn scopes(stack: Seq<Environment>) -> Seq<EnvironmentView> {
    stack.map_values(|e: Environment| e@)
}

impl Analyzer {
    /// An analyzer with one, empty, main scope.
    pub fn new(mode: Mode) -> (r: Self)
        ensures
            stack_of(r) == seq![EnvironmentView { scope: EnvironmentScope::Main, variables: Seq::empty() }],
            r.mode == mode,
    {
        let mut environments_stack = VecDeque::new();
        environments_stack.push_front(Environment::new(EnvironmentScope::Main));
        let r = Analyzer { environments_stack, mode };
        assert(stack_of(r) =~= seq![
            EnvironmentView { scope: EnvironmentScope::Main, variables: Seq::empty() },
        ]);
        r
    }
}

/// Where the variable named `name` is in a scope.
fn find_in_environment(env: &Environment, name: &String) -> (r: Option<usize>)
    ensures
        match r {
            Some(j) => j < env.variables@.len() && find_var(env@.variables, name@) == Some(
                env@.variables[j as int],
            ) && is_named(env@.variables[j as int], name@) && forall|k: int|
                0 <= k < j ==> !is_named(#[trigger] env@.variables[k], name@),
            None => find_var(env@.variables, name@) is None,
        },
{
    let ghost vs = env@.variables;
    assert(vs.subrange(0, vs.len() as int) =~= vs);
    let mut j: usize = 0;
    while j < env.variables.len()
        invariant
            j <= env.variables@.len(),
            vs == env@.variables,
            vs.len() == env.variables@.len(),
            find_var(vs, name@) == find_var(vs.subrange(j as int, vs.len() as int), name@),
            forall|k: int| 0 <= k < j ==> !is_named(#[trigger] vs[k], name@),
        decreases env.variables@.len() - j,
    {
        let ghost rest = vs.subrange(j as int, vs.len() as int);
        assert(rest[0] == vs[j as int]);
        assert(vs[j as int] == env.variables@[j as int]@);
        let matched = match &env.variables[j].name {
            Some(n) => *n == *name,
            None => false,
        };
        if matched {
            return Some(j);
        }
        assert(rest.drop_first() =~= vs.subrange(j as int + 1, vs.len() as int));
        j = j + 1;
    }
    None
}

/// Where the variable named `name` is: its scope, from the front, and its
/// place in the scope.
fn find_in_stack(stack: &VecDeque<Environment>, name: &String) -> (r: Option<(usize, usize)>)
    ensures
        match r {
            Some((i, j)) => i < stack@.len() && j < stack@[i as int].variables@.len() && find_variable(
                scopes(stack@),
                name@,
            ) == Some(scopes(stack@)[i as int].variables[j as int]),
            None => find_variable(scopes(stack@), name@) is None,
        },
{
    let ghost st = scopes(stack@);
    assert(st.subrange(0, st.len() as int) =~= st);
    let mut i: usize = 0;
    while i < stack.len()
        invariant
            i <= stack@.len(),
            st == scopes(stack@),
            st.len() == stack@.len(),
            find_variable(st, name@) == find_variable(st.subrange(i as int, st.len() as int), name@),
        decreases stack@.len() - i,
    {
        let ghost rest = st.subrange(i as int, st.len() as int);
        assert(rest[0] == st[i as int]);
        match find_in_environment(&stack[i], name) {
            Some(j) => {
                return Some((i, j));
            },
            None => {},
        }
        assert(rest.drop_first() =~= st.subrange(i as int + 1, st.len() as int));
        i = i + 1;
    }
    None
}

/// Whether the scope holds a variable named `name`.
pub(crate) fn find_in_scope(env: &Environment, name: &String) -> (b: bool)
    ensures
        b == find_var(env@.variables, name@) is Some,
{
    find_in_environment(env, name).is_some()
}

/// The type of the variable named `name`, from the first scope that holds
/// one.
pub(crate) fn find_variable_in(stack: &VecDeque<Environment>, name: &String) -> (r: Option<TokenType>)
    requires
        all_typed(scopes(stack@)),
    ensures
        match find_variable(scopes(stack@), name@) {
            Some(v) => r == v.variable_type && r is Some,
            None => r is None,
        },
{
    match find_in_stack(stack, name) {
        Some((i, j)) => {
            let ghost st = scopes(stack@);
            assert(st[i as int].variables[j as int] == stack@[i as int].variables@[j as int]@);
            Some(stack[i].variables[j].variable_type.unwrap())
        },
        None => None,
    }
}

/// Whether a variable named `variable_name` is in scope.
pub fn is_variable_exists(analyzer: &Analyzer, variable_name: &String) -> (b: bool)
    ensures
        b == find_variable(stack_of(*analyzer), variable_name@) is Some,
{
    find_in_stack(&analyzer.environments_stack, variable_name).is_some()
}

/// The message of a name that no scope holds.
pub open spec fn not_found_error(mode: Mode, name: Seq<char>) -> Seq<char> {
    mode_text(mode) + ": Analyzer Error -> Variable `"@ + name + "` not found."@
}

fn not_found_string(mode: Mode, name: &String) -> (s: String)
    ensures
        s@ == not_found_error(mode, name@),
{
    let mut s = mode.to_string();
    s.append(": Analyzer Error -> Variable `");
    s.append(name.as_str());
    s.append("` not found.");
    s
}

/// The variable named `variable_name`, from the first scope that holds
/// one.
pub fn get_variable(analyzer: &Analyzer, variable_name: &String) -> (r: Result<Variable, String>)
    ensures
        match (r, find_variable(stack_of(*analyzer), variable_name@)) {
            (Ok(v), Some(w)) => v@ == w,
            (Err(e), None) => e@ == not_found_error(analyzer.mode, variable_name@),
            _ => false,
        },
{
    match find_in_stack(&analyzer.environments_stack, variable_name) {
        Some((i, j)) => Ok(analyzer.environments_stack[i].variables[j].clone()),
        None => Err(not_found_string(analyzer.mode, variable_name)),
    }
}

/// The type of the variable named `variable_name`.
fn get_variable_type(analyzer: &Analyzer, variable_name: &String) -> (r: Result<TokenType, String>)
    requires
        all_typed(stack_of(*analyzer)),
    ensures
        match (r, find_variable(stack_of(*analyzer), variable_name@)) {
            (Ok(t), Some(w)) => w.variable_type == Some(t),
            (Err(e), None) => e@ == not_found_error(analyzer.mode, variable_name@),
            _ => false,
        },
{
    match find_in_stack(&analyzer.environments_stack, variable_name) {
        Some((i, j)) => {
            let ghost st = stack_of(*analyzer);
            assert(st[i as int].variables[j as int] == analyzer.environments_stack@[i as int].variables@[j as int]@);
            Ok(analyzer.environments_stack[i].variables[j].variable_type.unwrap())
        },
        None => Err(not_found_string(analyzer.mode, variable_name)),
    }
}


/// The name of an operator.
pub fn operator_name_string(op: OperatorType) -> (s: String)
    ensures
        s@ == operator_name(op),
{
    let name = match op {
        OperatorType::Plus => "Plus",
        OperatorType::Minus => "Minus",
        OperatorType::Mul => "Mul",
        OperatorType::Div => "Div",
        OperatorType::Mod => "Mod",
        OperatorType::Convert => "Convert",
        OperatorType::Equal => "Equal",
        OperatorType::GreaterThanOrEqual => "GreaterThanOrEqual",
        OperatorType::GreaterThan => "GreaterThan",
        OperatorType::LessThanOrEqual => "LessThanOrEqual",
        OperatorType::LessThan => "LessThan",
        OperatorType::NotEqual => "NotEqual",
        OperatorType::Or => "Or",
        OperatorType::And => "And",
    };
    String::from_str(name)
}

/// `prefix` + the text + `suffix`.
fn framed(prefix: &str, text: &String, suffix: &str) -> (s: String)
    ensures
        s@ == prefix@ + text@ + suffix@,
{
    let mut s = String::from_str(prefix);
    s.append(text.as_str());
    s.append(suffix);
    s
}

/// The type of a leaf.
fn analyze_leaf(analyzer: &Analyzer, t: &Token) -> (r: Result<TokenType, String>)
    requires
        all_typed(stack_of(*analyzer)),
    ensures
        match (r, leaf_type(stack_of(*analyzer), t@, analyzer.mode)) {
            (Ok(x), Ok(y)) => x == y,
            (Err(e), Err(m)) => e@ == m,
            _ => false,
        },
{
    let mode = analyzer.mode;
    if t.token_type == TokenType::Variable {
        if !is_variable_exists(analyzer, &t.value) {
            let message = framed("Undefined variable `", &t.value, "`");
            return Err(syntax_error_string(mode, message, t));
        }
        let variable_type = match get_variable_type(analyzer, &t.value) {
            Ok(x) => x,
            Err(e) => {
                return Err(e);
            },
        };
        if variable_type == TokenType::True || variable_type == TokenType::False {
            Ok(TokenType::Bool)
        } else if variable_type == TokenType::Int {
            Ok(TokenType::IntNumber)
        } else if variable_type == TokenType::Double {
            Ok(TokenType::DoubleNumber)
        } else if variable_type == TokenType::String {
            Ok(TokenType::StringSequence)
        } else if variable_type == TokenType::Char {
            Ok(TokenType::Character)
        } else {
            Ok(variable_type)
        }
    } else {
        if mode == Mode::Compiler {
            if t.token_type == TokenType::IntNumber && t.value.as_str().unicode_len() > 18 {
                let message = framed("The litral `", &t.value, "` does not fit into int type");
                return Err(syntax_error_string(mode, message, t));
            } else if t.token_type == TokenType::DoubleNumber && t.value.as_str().unicode_len() > 18 {
                let message = framed("The litral `", &t.value, "` does not fit into double type");
                return Err(syntax_error_string(mode, message, t));
            }
        }
        Ok(t.token_type)
    }
}

/// The right operand of a tree whose nodes carry tokens carries one, and it
/// is where some errors are reported.
proof fn lemma_right_value(n: OperationNode)
    requires
        has_values(n@),
        n.right is Some,
    ensures
        n.right.unwrap().value is Some,
        right_value(n@) == n.right.unwrap().value.unwrap()@,
{
    let r = *n.right.unwrap();
    assert(n@.right == Some(Box::new(r@)));
    assert(has_values(r@));
}

/// The type of an operation of `operator` on operands of types `left_type`
/// and `right_type`.
fn analyze_operation(
    mode: Mode,
    operator: OperatorType,
    left_type: TokenType,
    right_type: TokenType,
    operation_node: &OperationNode,
) -> (r: Result<TokenType, String>)
    requires
        has_values(operation_node@),
        operation_node.left is Some <==> operation_node.right is Some,
        operation_node.left is None ==> left_type == TokenType::BadToken && right_type
            == TokenType::BadToken,
    ensures
        match (r, operation_type(operator, left_type, right_type, operation_node@, mode)) {
            (Ok(x), Ok(y)) => x == y,
            (Err(e), Err(m)) => e@ == m,
            _ => false,
        },
{
    let value = operation_node.value.as_ref().unwrap();
    if operator == OperatorType::Convert {
        if value.token_type == TokenType::Bool {
            return Ok(TokenType::Bool);
        } else if value.token_type == TokenType::Int {
            return Ok(TokenType::IntNumber);
        } else if value.token_type == TokenType::Double {
            return Ok(TokenType::DoubleNumber);
        } else if value.token_type == TokenType::Char {
            return Ok(TokenType::Character);
        } else if value.token_type == TokenType::String {
            return Ok(TokenType::StringSequence);
        }
    }
    let name = operator_name_string(operator);
    if left_type == TokenType::StringSequence || right_type == TokenType::StringSequence {
        let other = if left_type == TokenType::StringSequence {
            right_type
        } else {
            left_type
        };
        if other != TokenType::StringSequence && other != TokenType::Character {
            let right = operation_node.right.as_ref().unwrap();
            proof {
                lemma_right_value(*operation_node);
            }
            let at = right.value.as_ref().unwrap();
            let message = framed("Can't concate `", &kind_name_string(other), "` with String types");
            return Err(syntax_error_string(mode, message, at));
        } else if operator != OperatorType::Plus {
            let message = framed("Invalid operation ", &name, " on String Types");
            return Err(syntax_error_string(mode, message, value));
        }
        return Ok(TokenType::StringSequence);
    }
    if left_type == TokenType::Character || right_type == TokenType::Character {
        let other = if left_type == TokenType::Character {
            right_type
        } else {
            left_type
        };
        if other != TokenType::Character {
            let right = operation_node.right.as_ref().unwrap();
            proof {
                lemma_right_value(*operation_node);
            }
            let at = right.value.as_ref().unwrap();
            let message = framed(
                "Can't concate `",
                &kind_name_string(other),
                "` with Character types",
            );
            return Err(syntax_error_string(mode, message, at));
        } else if operator != OperatorType::Plus {
            let message = framed("Invalid operation ", &name, " on Character types");
            return Err(syntax_error_string(mode, message, value));
        }
        return Ok(TokenType::StringSequence);
    }
    if left_type == TokenType::IntNumber || right_type == TokenType::IntNumber {
        let (first, second) = if left_type == TokenType::IntNumber {
            (left_type, right_type)
        } else {
            (right_type, left_type)
        };
        if second != TokenType::IntNumber && second != TokenType::DoubleNumber {
            let mut message = framed("Invalid operation ", &name, " on ");
            message.append(kind_name_string(first).as_str());
            message.append(" and ");
            message.append(kind_name_string(second).as_str());
            return Err(syntax_error_string(mode, message, value));
        } else if operator == OperatorType::Plus || operator == OperatorType::Minus || operator
            == OperatorType::Mul || operator == OperatorType::Mod {
            return Ok(TokenType::IntNumber);
        } else if operator == OperatorType::Div {
            return Ok(TokenType::DoubleNumber);
        }
        return Ok(TokenType::Bool);
    }
    let left_boolean = left_type == TokenType::Bool || left_type == TokenType::True || left_type
        == TokenType::False;
    let right_boolean = right_type == TokenType::Bool || right_type == TokenType::True
        || right_type == TokenType::False;
    if left_boolean || right_boolean {
        if !(left_boolean && right_boolean) || (operator != OperatorType::And && operator
            != OperatorType::Or && operator != OperatorType::Equal && operator
            != OperatorType::NotEqual) {
            let message = framed("Invalid operation ", &name, " on Boolean types");
            return Err(syntax_error_string(mode, message, value));
        }
        return Ok(TokenType::Bool);
    }
    let message = framed("Undefined operator ", &name, " behavior");
    Err(syntax_error_string(mode, message, value))
}

/// The type of an expression, or the error that the analyzer reports of it.
pub fn analyze_operation_node(analyzer: &Analyzer, operation_node: &OperationNode) -> (r: Result<
    TokenType,
    String,
>)
    requires
        has_values(operation_node@),
        all_typed(stack_of(*analyzer)),
    ensures
        match (r, node_type(stack_of(*analyzer), operation_node@, analyzer.mode)) {
            (Ok(x), Ok(y)) => x == y,
            (Err(e), Err(m)) => e@ == m,
            _ => false,
        },
    decreases operation_node,
{
    match &operation_node.operator {
        Some(operator) => {
            let operator = *operator;
            let mut left_type = TokenType::BadToken;
            let mut right_type = TokenType::BadToken;
            match &operation_node.left {
                Some(l) => match analyze_operation_node(analyzer, &**l) {
                    Ok(t) => {
                        left_type = t;
                    },
                    Err(e) => {
                        return Err(e);
                    },
                },
                None => {},
            }
            match &operation_node.right {
                Some(x) => match analyze_operation_node(analyzer, &**x) {
                    Ok(t) => {
                        right_type = t;
                    },
                    Err(e) => {
                        return Err(e);
                    },
                },
                None => {},
            }
            if operation_node.left.is_some() && operation_node.right.is_none() {
                return Ok(left_type);
            } else if operation_node.right.is_some() && operation_node.left.is_none() {
                return Ok(right_type);
            }
            analyze_operation(analyzer.mode, operator, left_type, right_type, operation_node)
        },
        None => analyze_leaf(analyzer, operation_node.value.as_ref().unwrap()),
    }
}


/* The checks of the interpreter, one statement at a time */

/// Whether a definition of kind `kind` takes a value of type `t`.
pub open spec fn accepts(kind: StatementType, t: TokenType) -> bool {
    match kind {
        StatementType::DefineBool => is_boolean(t),
        StatementType::DefineInt | StatementType::DefineDouble => t == TokenType::IntNumber || t
            == TokenType::DoubleNumber,
        StatementType::DefineChar | StatementType::DefineString => t == TokenType::Character || t
            == TokenType::StringSequence,
        _ => true,
    }
}

/// The name of the type a definition of kind `kind` defines, in messages.
pub open spec fn target_name(kind: StatementType) -> Seq<char> {
    match kind {
        StatementType::DefineBool => "Boolean"@,
        StatementType::DefineInt => "Int"@,
        StatementType::DefineDouble => "Double"@,
        StatementType::DefineChar => "Character"@,
        _ => "String"@,
    }
}

/// The error, if any, of defining the variable `name` of kind `kind` with
/// the value of `left`.
pub open spec fn define_check(
    stack: Seq<EnvironmentView>,
    mode: Mode,
    kind: StatementType,
    name: TokenView,
    left: OperationNodeView,
) -> Option<Seq<char>> {
    match node_type(stack, left, mode) {
        Err(m) => Some(m),
        Ok(t) => if accepts(kind, t) {
            None
        } else {
            Some(
                syntax_error(
                    mode,
                    "Can't assign `"@ + kind_name(t) + "` to "@ + target_name(kind),
                    name,
                ),
            )
        },
    }
}

/// A text as `{:?}` prints it, for texts with nothing to escape.
pub open spec fn quoted(s: Seq<char>) -> Seq<char> {
    "\""@ + s + "\""@
}

/// The error of an operator that a variable's type does not take.
pub open spec fn operation_error(
    mode: Mode,
    verb: Seq<char>,
    op: TokenType,
    variable: Seq<char>,
    t: TokenType,
    at: TokenView,
) -> Seq<char> {
    syntax_error(
        mode,
        verb + " `"@ + kind_name(op) + "` "@ + (if verb == "Can't do operation"@ {
            "to"@
        } else {
            "on"@
        }) + " `"@ + quoted(variable) + "` which has type `"@ + kind_name(t) + "`"@,
        at,
    )
}

/// The error of a value of type `t` assigned to a variable of type `vt`.
pub open spec fn assign_error(mode: Mode, t: TokenType, vt: TokenType, at: TokenView) -> Seq<char> {
    syntax_error(mode, "Can't assign `"@ + kind_name(t) + "` to `"@ + kind_name(vt) + "`"@, at)
}

/// The type a variable holds.
pub open spec fn type_of(v: VariableView) -> TokenType {
    match v.variable_type {
        Some(t) => t,
        None => arbitrary(),
    }
}

/// The error, if any, of the assignment `name op left` as the interpreter
/// checks it.
pub open spec fn assignment_check(
    stack: Seq<EnvironmentView>,
    mode: Mode,
    name: TokenView,
    op: TokenView,
    left: OperationNodeView,
) -> Option<Seq<char>> {
    let ot = op.token_type;
    match find_variable(stack, name.value) {
        None => if ot != TokenType::Assign {
            Some(syntax_error(mode, "Undefined variable `"@ + name.value + "`"@, name))
        } else {
            match node_type(stack, left, mode) {
                Err(m) => Some(m),
                Ok(_) => None,
            }
        },
        Some(var) => {
            let vt = type_of(var);
            let vname = match var.name {
                Some(n) => n,
                None => arbitrary(),
            };
            if ot == TokenType::Assign {
                match node_type(stack, left, mode) {
                    Err(m) => Some(m),
                    Ok(_) => None,
                }
            } else if (vt == TokenType::String && ot != TokenType::PlusEqual) || vt == TokenType::Char
                || vt == TokenType::Bool {
                Some(operation_error(mode, "Can't do operation"@, ot, vname, vt, name))
            } else {
                match node_type(stack, left, mode) {
                    Err(m) => Some(m),
                    Ok(t) => if (t == TokenType::IntNumber || t == TokenType::DoubleNumber) && vt
                        != TokenType::Int && vt != TokenType::Double {
                        Some(assign_error(mode, t, vt, name))
                    } else if (t == TokenType::Character || t == TokenType::StringSequence) && vt
                        != TokenType::String && vt != TokenType::Char {
                        Some(assign_error(mode, t, vt, name))
                    } else {
                        None
                    },
                }
            }
        },
    }
}

/// The outcome of a check: `Ok` where it found no error.
pub open spec fn outcome_is(r: Result<(), String>, e: Option<Seq<char>>) -> bool {
    match (r, e) {
        (Ok(()), None) => true,
        (Err(x), Some(m)) => x@ == m,
        _ => false,
    }
}

/// Checks that the value of `left` fits a definition of kind `kind`.
fn check_definition(analyzer: &Analyzer, kind: StatementType, name: &Token, left: &OperationNode) -> (r:
    Result<(), String>)
    requires
        has_values(left@),
        all_typed(stack_of(*analyzer)),
    ensures
        outcome_is(r, define_check(stack_of(*analyzer), analyzer.mode, kind, name@, left@)),
{
    let node_type = match analyze_operation_node(analyzer, left) {
        Ok(t) => t,
        Err(e) => {
            return Err(e);
        },
    };
    let fits = match kind {
        StatementType::DefineBool => node_type == TokenType::Bool || node_type == TokenType::True
            || node_type == TokenType::False,
        StatementType::DefineInt | StatementType::DefineDouble => node_type == TokenType::IntNumber
            || node_type == TokenType::DoubleNumber,
        StatementType::DefineChar | StatementType::DefineString => node_type
            == TokenType::Character || node_type == TokenType::StringSequence,
        _ => true,
    };
    if fits {
        Ok(())
    } else {
        let target = match kind {
            StatementType::DefineBool => "Boolean",
            StatementType::DefineInt => "Int",
            StatementType::DefineDouble => "Double",
            StatementType::DefineChar => "Character",
            _ => "String",
        };
        let mut message = framed("Can't assign `", &kind_name_string(node_type), "` to ");
        message.append(target);
        Err(syntax_error_string(analyzer.mode, message, name))
    }
}

/// Checks `bool x = e`: `e` must be a boolean.
pub fn analyze_define_bool(analyzer: &mut Analyzer, statement: &DefineBoolNode) -> (r: Result<(), String>)
    requires
        statement.name is Some,
        statement.left matches Some(l) && has_values(l@),
        all_typed(stack_of(*old(analyzer))),
    ensures
        *final(analyzer) == *old(analyzer),
        outcome_is(
            r,
            define_check(
                stack_of(*old(analyzer)),
                old(analyzer).mode,
                StatementType::DefineBool,
                statement.name.unwrap()@,
                statement.left.unwrap()@,
            ),
        ),
{
    check_definition(
        analyzer,
        StatementType::DefineBool,
        statement.name.as_ref().unwrap(),
        statement.left.as_ref().unwrap(),
    )
}

/// Checks `int x = e`: `e` must be a number.
pub fn analyze_define_int(analyzer: &mut Analyzer, statement: DefineIntNode) -> (r: Result<(), String>)
    requires
        statement.name is Some,
        statement.left matches Some(l) && has_values(l@),
        all_typed(stack_of(*old(analyzer))),
    ensures
        *final(analyzer) == *old(analyzer),
        outcome_is(
            r,
            define_check(
                stack_of(*old(analyzer)),
                old(analyzer).mode,
                StatementType::DefineInt,
                statement.name.unwrap()@,
                statement.left.unwrap()@,
            ),
        ),
{
    check_definition(
        analyzer,
        StatementType::DefineInt,
        statement.name.as_ref().unwrap(),
        statement.left.as_ref().unwrap(),
    )
}

/// Checks `double x = e`: `e` must be a number.
pub fn analyze_define_double(analyzer: &mut Analyzer, statement: DefineDoubleNode) -> (r: Result<(), String>)
    requires
        statement.name is Some,
        statement.left matches Some(l) && has_values(l@),
        all_typed(stack_of(*old(analyzer))),
    ensures
        *final(analyzer) == *old(analyzer),
        outcome_is(
            r,
            define_check(
                stack_of(*old(analyzer)),
                old(analyzer).mode,
                StatementType::DefineDouble,
                statement.name.unwrap()@,
                statement.left.unwrap()@,
            ),
        ),
{
    check_definition(
        analyzer,
        StatementType::DefineDouble,
        statement.name.as_ref().unwrap(),
        statement.left.as_ref().unwrap(),
    )
}

/// Checks `char x = e`: `e` must be a character or a string.
pub fn analyze_define_char(analyzer: &mut Analyzer, statement: DefineCharNode) -> (r: Result<(), String>)
    requires
        statement.name is Some,
        statement.left matches Some(l) && has_values(l@),
        all_typed(stack_of(*old(analyzer))),
    ensures
        *final(analyzer) == *old(analyzer),
        outcome_is(
            r,
            define_check(
                stack_of(*old(analyzer)),
                old(analyzer).mode,
                StatementType::DefineChar,
                statement.name.unwrap()@,
                statement.left.unwrap()@,
            ),
        ),
{
    check_definition(
        analyzer,
        StatementType::DefineChar,
        statement.name.as_ref().unwrap(),
        statement.left.as_ref().unwrap(),
    )
}

/// Checks `string x = e`: `e` must be a string or a character.
pub fn analyze_define_string(analyzer: &mut Analyzer, statement: DefineStringNode) -> (r: Result<(), String>)
    requires
        statement.name is Some,
        statement.left matches Some(l) && has_values(l@),
        all_typed(stack_of(*old(analyzer))),
    ensures
        *final(analyzer) == *old(analyzer),
        outcome_is(
            r,
            define_check(
                stack_of(*old(analyzer)),
                old(analyzer).mode,
                StatementType::DefineString,
                statement.name.unwrap()@,
                statement.left.unwrap()@,
            ),
        ),
{
    check_definition(
        analyzer,
        StatementType::DefineString,
        statement.name.as_ref().unwrap(),
        statement.left.as_ref().unwrap(),
    )
}

/// Checks `var x = e`: `e` must have a type.
pub fn analyze_define_var(analyzer: &mut Analyzer, statement: DefineVarNode) -> (r: Result<(), String>)
    requires
        statement.left matches Some(l) && has_values(l@),
        all_typed(stack_of(*old(analyzer))),
    ensures
        *final(analyzer) == *old(analyzer),
        outcome_is(
            r,
            match node_type(stack_of(*old(analyzer)), statement.left.unwrap()@, old(analyzer).mode) {
                Err(m) => Some(m),
                Ok(_) => None,
            },
        ),
{
    match analyze_operation_node(analyzer, statement.left.as_ref().unwrap()) {
        Ok(_) => Ok(()),
        Err(e) => Err(e),
    }
}

/// Checks an assignment `x = e` (or `+=`, `-=`, `*=`, `/=`, `%=`) against
/// the variable's type.
pub fn analyze_define_variable(analyzer: &mut Analyzer, statement: DefineVariableNode) -> (r: Result<(), String>)
    requires
        statement.name is Some,
        statement.operator is Some,
        statement.left matches Some(l) && has_values(l@),
        all_typed(stack_of(*old(analyzer))),
    ensures
        *final(analyzer) == *old(analyzer),
        outcome_is(
            r,
            assignment_check(
                stack_of(*old(analyzer)),
                old(analyzer).mode,
                statement.name.unwrap()@,
                statement.operator.unwrap()@,
                statement.left.unwrap()@,
            ),
        ),
{
    let mode = analyzer.mode;
    let name_token = statement.name.as_ref().unwrap();
    let left = statement.left.as_ref().unwrap();
    if !is_variable_exists(analyzer, &name_token.value) {
        if statement.operator.as_ref().unwrap().token_type != TokenType::Assign {
            let message = framed("Undefined variable `", &name_token.value, "`");
            return Err(syntax_error_string(mode, message, name_token));
        }
        match analyze_operation_node(analyzer, left) {
            Ok(_) => {},
            Err(e) => {
                return Err(e);
            },
        }
    } else {
        let variable = match get_variable(analyzer, &name_token.value) {
            Ok(v) => v,
            Err(e) => {
                return Err(e);
            },
        };
        proof {
            lemma_found_typed(stack_of(*analyzer), name_token.value@);
        }
        let variable_type = variable.variable_type.unwrap();
        let operator_type = statement.operator.as_ref().unwrap().token_type;
        if operator_type == TokenType::Assign {
            return match analyze_operation_node(analyzer, left) {
                Ok(_) => Ok(()),
                Err(e) => Err(e),
            };
        }
        if (variable_type == TokenType::String && operator_type != TokenType::PlusEqual)
            || variable_type == TokenType::Char || variable_type == TokenType::Bool {
            let variable_name = variable.name.unwrap();
            let message = operation_message(
                "Can't do operation",
                operator_type,
                &variable_name,
                variable_type,
            );
            return Err(syntax_error_string(mode, message, name_token));
        }
        let node_type = match analyze_operation_node(analyzer, left) {
            Ok(t) => t,
            Err(e) => {
                return Err(e);
            },
        };
        if (node_type == TokenType::IntNumber || node_type == TokenType::DoubleNumber) && (
        variable_type != TokenType::Int && variable_type != TokenType::Double) {
            return Err(assign_message(mode, node_type, variable_type, name_token));
        } else if (node_type == TokenType::Character || node_type == TokenType::StringSequence) && (
        variable_type != TokenType::String && variable_type != TokenType::Char) {
            return Err(assign_message(mode, node_type, variable_type, name_token));
        }
    }
    Ok(())
}

/// A variable that is found has a type and a name.
proof fn lemma_found_typed(stack: Seq<EnvironmentView>, name: Seq<char>)
    requires
        all_typed(stack),
    ensures
        find_variable(stack, name) matches Some(v) ==> v.variable_type is Some && v.name == Some(
            name,
        ),
    decreases stack.len(),
{
    if stack.len() > 0 {
        lemma_find_var_named(stack[0].variables, name);
        lemma_find_var_member(stack[0].variables, name);
        if let Some(v) = find_var(stack[0].variables, name) {
            let j = choose|j: int| 0 <= j < stack[0].variables.len() && stack[0].variables[j] == v;
            assert(stack[0].variables[j].variable_type is Some);
        } else {
            assert forall|i: int, j: int|
                0 <= i < stack.drop_first().len() && 0 <= j < stack.drop_first()[i].variables.len()
                    implies (#[trigger] stack.drop_first()[i].variables[j]).variable_type is Some by {
                assert(stack.drop_first()[i] == stack[i + 1]);
            }
            lemma_found_typed(stack.drop_first(), name);
        }
    }
}

/// What is found of a name is named so.
proof fn lemma_find_var_named(vars: Seq<VariableView>, name: Seq<char>)
    ensures
        find_var(vars, name) matches Some(v) ==> v.name == Some(name),
    decreases vars.len(),
{
    if vars.len() > 0 && !is_named(vars[0], name) {
        lemma_find_var_named(vars.drop_first(), name);
    }
}

/// The message of an operator that a variable's type does not take.
fn operation_message(verb: &str, op: TokenType, variable: &String, t: TokenType) -> (s: String)
    ensures
        s@ == verb@ + " `"@ + kind_name(op) + "` "@ + (if verb@ == "Can't do operation"@ {
            "to"@
        } else {
            "on"@
        }) + " `"@ + quoted(variable@) + "` which has type `"@ + kind_name(t) + "`"@,
{
    let mut s = String::from_str(verb);
    s.append(" `");
    s.append(kind_name_string(op).as_str());
    s.append("` ");
    let verb_text = String::from_str(verb);
    let to = String::from_str("Can't do operation");
    if verb_text == to {
        s.append("to");
    } else {
        s.append("on");
    }
    s.append(" `\"");
    s.append(variable.as_str());
    s.append("\"` which has type `");
    s.append(kind_name_string(t).as_str());
    s.append("`");
    proof {
        reveal_strlit(" `\"");
        reveal_strlit("\"` which has type `");
        reveal_strlit(" `");
        reveal_strlit("\"");
        reveal_strlit("` which has type `");
    }
    s
}

/// The error of a value of type `t` assigned to a variable of type `vt`.
fn assign_message(mode: Mode, t: TokenType, vt: TokenType, at: &Token) -> (s: String)
    ensures
        s@ == assign_error(mode, t, vt, at@),
{
    let mut message = framed("Can't assign `", &kind_name_string(t), "` to `");
    message.append(kind_name_string(vt).as_str());
    message.append("`");
    syntax_error_string(mode, message, at)
}

/// Checks `print(x)`: `x` must be defined.
pub fn analyze_define_print(analyzer: &Analyzer, statement: DefinePrintNode) -> (r: Result<(), String>)
    requires
        statement.variable is Some,
    ensures
        outcome_is(r, print_check(stack_of(*analyzer), analyzer.mode, statement.variable.unwrap()@)),
{
    let variable = statement.variable.as_ref().unwrap();
    if !is_variable_exists(analyzer, &variable.value) {
        let message = framed("Undefined variable `", &variable.value, "`");
        return Err(syntax_error_string(analyzer.mode, message, variable));
    }
    Ok(())
}

/// The error, if any, of printing the variable `v`.
pub open spec fn print_check(stack: Seq<EnvironmentView>, mode: Mode, v: TokenView) -> Option<Seq<char>> {
    if find_variable(stack, v.value) is None {
        Some(syntax_error(mode, "Undefined variable `"@ + v.value + "`"@, v))
    } else {
        None
    }
}

/// The error, if any, of the condition `condition` of the `if` at `if_token`.
pub open spec fn condition_check(
    stack: Seq<EnvironmentView>,
    mode: Mode,
    condition: OperationNodeView,
    if_token: TokenView,
) -> Option<Seq<char>> {
    match node_type(stack, condition, mode) {
        Err(m) => Some(m),
        Ok(t) => if is_boolean(t) {
            None
        } else {
            Some(
                syntax_error(
                    mode,
                    "If condition must be of type `bool` found `"@ + kind_name(t) + "`"@,
                    if_token,
                ),
            )
        },
    }
}

/// Checks that the condition of an `if` is a boolean.
pub fn analyze_if_condition(analyzer: &Analyzer, condition: &OperationNode, if_token: &Token) -> (r:
    Result<(), String>)
    requires
        has_values(condition@),
        all_typed(stack_of(*analyzer)),
    ensures
        outcome_is(r, condition_check(stack_of(*analyzer), analyzer.mode, condition@, if_token@)),
{
    let node_type = match analyze_operation_node(analyzer, condition) {
        Ok(t) => t,
        Err(e) => {
            return Err(e);
        },
    };
    if node_type != TokenType::Bool && node_type != TokenType::True && node_type != TokenType::False {
        let message = framed(
            "If condition must be of type `bool` found `",
            &kind_name_string(node_type),
            "`",
        );
        return Err(syntax_error_string(analyzer.mode, message, if_token));
    }
    Ok(())
}


/* The checks of the compiler, over a whole tree */

/// The stack with `v` stored in its innermost scope.
pub open spec fn store(stack: Seq<EnvironmentView>, v: VariableView) -> Seq<EnvironmentView> {
    stack.update(
        stack.len() - 1,
        EnvironmentView { scope: stack.last().scope, variables: put_var(stack.last().variables, v) },
    )
}

/// A read looks through the outer scopes first and then the innermost.
proof fn lemma_find_variable_last(stack: Seq<EnvironmentView>, name: Seq<char>)
    requires
        stack.len() > 0,
    ensures
        find_variable(stack, name) == match find_variable(stack.drop_last(), name) {
            Some(w) => Some(w),
            None => find_var(stack.last().variables, name),
        },
    decreases stack.len(),
{
    if stack.len() > 1 {
        lemma_find_variable_last(stack.drop_first(), name);
        assert(stack.drop_first().drop_last() =~= stack.drop_last().drop_first());
        assert(stack.drop_last()[0] == stack[0]);
    } else {
        assert(stack.drop_last() =~= Seq::<EnvironmentView>::empty());
        assert(stack.drop_first() =~= Seq::<EnvironmentView>::empty());
    }
}

/// A variable stored by the checks is what a read of its name gives back,
/// unless an outer scope holds that name, whose variable is read first;
/// reads of other names give what they gave before.
pub proof fn lemma_store_then_find(stack: Seq<EnvironmentView>, v: VariableView, name: Seq<char>)
    requires
        stack.len() > 0,
        v.name is Some,
    ensures
        find_variable(store(stack, v), name) == match find_variable(stack.drop_last(), name) {
            Some(w) => Some(w),
            None => if is_named(v, name) {
                Some(v)
            } else {
                find_variable(stack, name)
            },
        },
{
    let st = store(stack, v);
    lemma_find_variable_last(st, name);
    lemma_find_variable_last(stack, name);
    lemma_put_find_var(stack.last().variables, v, name);
    assert(st.drop_last() =~= stack.drop_last());
}

/// A new variable named `name` of type `t`, with no value.
pub open spec fn new_variable(name: Seq<char>, t: TokenType) -> VariableView {
    VariableView { variable_type: Some(t), name: Some(name), value: None, is_reasigned: false }
}

/// The type that a definition of kind `kind` gives its variable.
pub open spec fn declared_type(kind: StatementType) -> TokenType {
    match kind {
        StatementType::DefineBool => TokenType::Bool,
        StatementType::DefineInt => TokenType::Int,
        StatementType::DefineDouble => TokenType::Double,
        StatementType::DefineChar => TokenType::Char,
        _ => TokenType::String,
    }
}

/// The type that a variable takes from a value of type `t`.
pub open spec fn inferred_type(t: TokenType) -> TokenType {
    if t == TokenType::True || t == TokenType::False {
        TokenType::Bool
    } else if t == TokenType::IntNumber {
        TokenType::Int
    } else if t == TokenType::DoubleNumber {
        TokenType::Double
    } else if t == TokenType::Character || t == TokenType::StringSequence {
        TokenType::String
    } else {
        t
    }
}

/// An error of the analysis of a whole tree.
pub open spec fn analyze_error(mode: Mode, message: Seq<char>, t: TokenView) -> Seq<char> {
    mode_text(mode) + ": Analyze Error -> "@ + message + ", line "@ + decimal_text(t.start_line as nat)
        + ":"@ + decimal_text(t.start_pos as nat) + "."@
}

/// What the compiler's analysis of a definition leaves, and its error, if
/// any.
pub open spec fn compiler_define(
    stack: Seq<EnvironmentView>,
    mode: Mode,
    kind: StatementType,
    name: TokenView,
    left: OperationNodeView,
) -> (Seq<EnvironmentView>, Option<Seq<char>>) {
    if kind == StatementType::DefineVar {
        match node_type(stack, left, mode) {
            Err(m) => (stack, Some(m)),
            Ok(t) => (store(stack, new_variable(name.value, inferred_type(t))), None),
        }
    } else {
        match define_check(stack, mode, kind, name, left) {
            Some(m) => (stack, Some(m)),
            None => (store(stack, new_variable(name.value, declared_type(kind))), None),
        }
    }
}

/// What the compiler's analysis of an assignment leaves, and its error, if
/// any.
pub open spec fn compiler_assign(
    stack: Seq<EnvironmentView>,
    mode: Mode,
    name: TokenView,
    op: TokenView,
    left: OperationNodeView,
) -> (Seq<EnvironmentView>, Option<Seq<char>>) {
    let ot = op.token_type;
    match find_variable(stack, name.value) {
        None => if ot != TokenType::Assign {
            (stack, Some(syntax_error(mode, "Undefined variable `"@ + name.value + "`"@, name)))
        } else {
            match node_type(stack, left, mode) {
                Err(m) => (stack, Some(m)),
                Ok(t) => (store(stack, new_variable(name.value, inferred_type(t))), None),
            }
        },
        Some(var) => {
            let vt = type_of(var);
            let vname = match var.name {
                Some(n) => n,
                None => arbitrary(),
            };
            if (vt == TokenType::String && ot != TokenType::Assign && ot != TokenType::PlusEqual) || (
            vt == TokenType::Char && ot != TokenType::Assign) || (vt == TokenType::Bool && ot
                != TokenType::Assign) {
                (stack, Some(operation_error(mode, "Invalid operation"@, ot, vname, vt, name)))
            } else {
                match node_type(stack, left, mode) {
                    Err(m) => (stack, Some(m)),
                    Ok(t) => if is_boolean(t) && vt != TokenType::Bool {
                        (stack, Some(assign_error(mode, t, vt, name)))
                    } else if !is_boolean(t) && (t == TokenType::IntNumber || t
                        == TokenType::DoubleNumber) && vt != TokenType::Int && vt != TokenType::Double {
                        (stack, Some(assign_error(mode, t, vt, name)))
                    } else if (t == TokenType::Character || t == TokenType::StringSequence) && vt
                        != TokenType::String && vt != TokenType::Char {
                        (stack, Some(assign_error(mode, t, vt, name)))
                    } else {
                        (
                            store(
                                stack,
                                VariableView {
                                    variable_type: Some(vt),
                                    name: Some(name.value),
                                    value: var.value,
                                    is_reasigned: true,
                                },
                            ),
                            None,
                        )
                    },
                }
            }
        },
    }
}

/// The token of an optional place.
pub open spec fn token_of(o: Option<Token>) -> TokenView {
    match o {
        Some(t) => t@,
        None => arbitrary(),
    }
}

/// The tree of an optional expression.
pub open spec fn tree_of(o: Option<OperationNode>) -> OperationNodeView {
    match o {
        Some(n) => n@,
        None => arbitrary(),
    }
}

/// What the compiler's analysis of a statement leaves, and its error, if
/// any.
pub open spec fn compiler_statement(stack: Seq<EnvironmentView>, mode: Mode, st: StatementNode) -> (
    Seq<EnvironmentView>,
    Option<Seq<char>>,
)
    decreases st, 0int,
{
    match st.statement_type {
        Some(StatementType::DefineBool) => match st.define_bool_statement {
            Some(d) => compiler_define(stack, mode, StatementType::DefineBool, token_of(d.name), tree_of(d.left)),
            None => (stack, None),
        },
        Some(StatementType::DefineInt) => match st.define_int_statement {
            Some(d) => compiler_define(stack, mode, StatementType::DefineInt, token_of(d.name), tree_of(d.left)),
            None => (stack, None),
        },
        Some(StatementType::DefineDouble) => match st.define_double_statement {
            Some(d) => compiler_define(stack, mode, StatementType::DefineDouble, token_of(d.name), tree_of(d.left)),
            None => (stack, None),
        },
        Some(StatementType::DefineChar) => match st.define_char_statement {
            Some(d) => compiler_define(stack, mode, StatementType::DefineChar, token_of(d.name), tree_of(d.left)),
            None => (stack, None),
        },
        Some(StatementType::DefineString) => match st.define_string_statement {
            Some(d) => compiler_define(stack, mode, StatementType::DefineString, token_of(d.name), tree_of(d.left)),
            None => (stack, None),
        },
        Some(StatementType::DefineVar) => match st.define_var_statement {
            Some(d) => compiler_define(stack, mode, StatementType::DefineVar, token_of(d.name), tree_of(d.left)),
            None => (stack, None),
        },
        Some(StatementType::DefineVariable) => match st.define_variable_statement {
            Some(d) => compiler_assign(stack, mode, token_of(d.name), token_of(d.operator), tree_of(d.left)),
            None => (stack, None),
        },
        Some(StatementType::Print) => match st.define_print_statement {
            Some(d) => (stack, print_check(stack, mode, token_of(d.variable))),
            None => (stack, None),
        },
        Some(StatementType::DefineIf) => match st.define_if_statement {
            Some(ifs) => compiler_if(stack, mode, ifs),
            None => (stack, None),
        },
        _ => (stack, None),
    }
}

/// An empty scope of an `if` block.
pub open spec fn if_scope() -> EnvironmentView {
    EnvironmentView { scope: EnvironmentScope::If, variables: Seq::empty() }
}

/// What the compiler's analysis of a conditional block leaves: a scope of
/// its own, the condition, then the statements.
pub open spec fn compiler_branch(
    stack: Seq<EnvironmentView>,
    mode: Mode,
    token: TokenView,
    condition: OperationNodeView,
    body: StatementsNode,
) -> (Seq<EnvironmentView>, Option<Seq<char>>)
    decreases body, body.statements@.len() + 1,
{
    let inner = stack.push(if_scope());
    match node_type(inner, condition, mode) {
        Err(m) => (inner, Some(m)),
        Ok(t) => if !is_boolean(t) {
            (inner, Some(analyze_error(mode, "if condition must be `Bool`"@, token)))
        } else {
            let (after, e) = compiler_block(inner, mode, body, 0);
            if e is Some {
                (after, e)
            } else {
                (after.drop_last(), None)
            }
        },
    }
}

/// What the compiler's analysis of an `if` statement leaves.
pub open spec fn compiler_if(stack: Seq<EnvironmentView>, mode: Mode, ifs: DefineIfStatementNode) -> (
    Seq<EnvironmentView>,
    Option<Seq<char>>,
)
    decreases ifs, ifs.define_if_else_nodes@.len() + 2,
{
    match ifs.define_if_node {
        None => (stack, None),
        Some(n) => {
            let (s1, e1) = compiler_branch(stack, mode, token_of(n.token), tree_of(n.condition), n.statements);
            if e1 is Some {
                (s1, e1)
            } else {
                compiler_if_rest(s1, mode, ifs)
            }
        },
    }
}

/// What the compiler's analysis of the `else if` and `else` parts of an
/// `if` statement leaves.
pub open spec fn compiler_if_rest(stack: Seq<EnvironmentView>, mode: Mode, ifs: DefineIfStatementNode) -> (
    Seq<EnvironmentView>,
    Option<Seq<char>>,
)
    decreases ifs, ifs.define_if_else_nodes@.len() + 1,
{
    let (s2, e2) = compiler_else_ifs(stack, mode, ifs, 0);
    if e2 is Some {
        (s2, e2)
    } else {
        match ifs.define_else_node {
            None => (s2, None),
            Some(en) => {
                let (s3, e3) = compiler_block(s2.push(if_scope()), mode, en.statements, 0);
                if e3 is Some {
                    (s3, e3)
                } else {
                    (s3.drop_last(), None)
                }
            },
        }
    }
}

/// What the compiler's analysis of the `else if` parts from the `j`-th on
/// leaves.
pub open spec fn compiler_else_ifs(
    stack: Seq<EnvironmentView>,
    mode: Mode,
    ifs: DefineIfStatementNode,
    j: int,
) -> (Seq<EnvironmentView>, Option<Seq<char>>)
    decreases ifs, ifs.define_if_else_nodes@.len() - j,
{
    if j < 0 || j >= ifs.define_if_else_nodes@.len() {
        (stack, None)
    } else {
        let n = ifs.define_if_else_nodes[j];
        let (s1, e1) = compiler_branch(stack, mode, token_of(n.token), tree_of(n.condition), n.statements);
        if e1 is Some {
            (s1, e1)
        } else {
            compiler_else_ifs(s1, mode, ifs, j + 1)
        }
    }
}

/// What the compiler's analysis of the statements of a block from the
/// `i`-th on leaves.
pub open spec fn compiler_block(stack: Seq<EnvironmentView>, mode: Mode, b: StatementsNode, i: int) -> (
    Seq<EnvironmentView>,
    Option<Seq<char>>,
)
    decreases b, b.statements@.len() - i,
{
    if i < 0 || i >= b.statements@.len() {
        (stack, None)
    } else {
        let (s1, e1) = compiler_statement(stack, mode, b.statements[i]);
        if e1 is Some {
            (s1, e1)
        } else {
            compiler_block(s1, mode, b, i + 1)
        }
    }
}


/// Storing a typed variable keeps every variable typed.
proof fn lemma_store_typed(stack: Seq<EnvironmentView>, v: VariableView)
    requires
        all_typed(stack),
        stack.len() > 0,
        v.variable_type is Some,
    ensures
        all_typed(store(stack, v)),
        store(stack, v).len() == stack.len(),
{
    let last = stack.last().variables;
    lemma_put_var_members(last, v);
    let st = store(stack, v);
    assert forall|i: int, j: int| 0 <= i < st.len() && 0 <= j < st[i].variables.len() implies (
    #[trigger] st[i].variables[j]).variable_type is Some by {
        if i == stack.len() - 1 {
            let p = put_var(last, v);
            assert(st[i].variables == p);
            if p[j] != v {
                let k = choose|k: int| 0 <= k < last.len() && last[k] == p[j];
                assert(stack[stack.len() - 1].variables[k] == p[j]);
            }
        } else {
            assert(st[i] == stack[i]);
        }
    }
}

/// A stack with one more, empty, scope keeps every variable typed; so does
/// one with a scope less.
pub(crate) proof fn lemma_scope_typed(stack: Seq<EnvironmentView>)
    requires
        all_typed(stack),
    ensures
        all_typed(stack.push(if_scope())),
        stack.len() > 0 ==> all_typed(stack.drop_last()),
{
    let p = stack.push(if_scope());
    assert forall|i: int, j: int| 0 <= i < p.len() && 0 <= j < p[i].variables.len() implies (
    #[trigger] p[i].variables[j]).variable_type is Some by {
        assert(i < stack.len());
        assert(p[i] == stack[i]);
    }
    if stack.len() > 0 {
        let d = stack.drop_last();
        assert forall|i: int, j: int| 0 <= i < d.len() && 0 <= j < d[i].variables.len() implies (
        #[trigger] d[i].variables[j]).variable_type is Some by {
            assert(d[i] == stack[i]);
        }
    }
}

/// An error of the analysis of a whole tree.
fn analyze_error_string(mode: Mode, message: &str, t: &Token) -> (s: String)
    ensures
        s@ == analyze_error(mode, message@, t@),
{
    let mut s = mode.to_string();
    s.append(": Analyze Error -> ");
    s.append(message);
    s.append(", line ");
    push_decimal(&mut s, t.start_line as u128);
    s.append(":");
    push_decimal(&mut s, t.start_pos as u128);
    s.append(".");
    s
}

/// The type that a variable takes from a value of type `t`.
fn infer_type(t: TokenType) -> (r: TokenType)
    ensures
        r == inferred_type(t),
{
    if t == TokenType::True || t == TokenType::False {
        TokenType::Bool
    } else if t == TokenType::IntNumber {
        TokenType::Int
    } else if t == TokenType::DoubleNumber {
        TokenType::Double
    } else if t == TokenType::Character || t == TokenType::StringSequence {
        TokenType::String
    } else {
        t
    }
}

/// Stores a new variable named `name` of type `t` in the innermost scope.
fn store_new(analyzer: &mut Analyzer, name: &Token, t: TokenType)
    requires
        all_typed(stack_of(*old(analyzer))),
        stack_of(*old(analyzer)).len() > 0,
    ensures
        final(analyzer).mode == old(analyzer).mode,
        stack_of(*final(analyzer)) == store(stack_of(*old(analyzer)), new_variable(name@.value, t)),
        all_typed(stack_of(*final(analyzer))),
        stack_of(*final(analyzer)).len() == stack_of(*old(analyzer)).len(),
{
    let mut variable = Variable::new();
    variable.name = Some(name.value.clone());
    variable.variable_type = Some(t);
    variable.value = None;
    proof {
        lemma_store_typed(stack_of(*analyzer), variable@);
    }
    insert_variable_into_current_environmment(analyzer, variable);
}

impl Analyzer {
    /// The number of scopes.
    fn depth(&self) -> (n: usize)
        ensures
            n == stack_of(*self).len(),
    {
        self.environments_stack.len()
    }
}

/// The compiler's check of a definition, which then stores the variable.
fn compile_definition(analyzer: &mut Analyzer, kind: StatementType, name: &Token, left: &OperationNode) -> (r:
    Result<(), String>)
    requires
        all_typed(stack_of(*old(analyzer))),
        stack_of(*old(analyzer)).len() > 0,
        has_values(left@),
    ensures
        final(analyzer).mode == old(analyzer).mode,
        all_typed(stack_of(*final(analyzer))),
        stack_of(*final(analyzer)).len() == stack_of(*old(analyzer)).len(),
        ({
            let (st, e) = compiler_define(stack_of(*old(analyzer)), old(analyzer).mode, kind, name@, left@);
            stack_of(*final(analyzer)) == st && outcome_is(r, e)
        }),
{
    if kind == StatementType::DefineVar {
        let node_type = match analyze_operation_node(analyzer, left) {
            Ok(t) => t,
            Err(e) => {
                return Err(e);
            },
        };
        store_new(analyzer, name, infer_type(node_type));
        Ok(())
    } else {
        match check_definition(analyzer, kind, name, left) {
            Ok(()) => {},
            Err(e) => {
                return Err(e);
            },
        }
        let t = match kind {
            StatementType::DefineBool => TokenType::Bool,
            StatementType::DefineInt => TokenType::Int,
            StatementType::DefineDouble => TokenType::Double,
            StatementType::DefineChar => TokenType::Char,
            _ => TokenType::String,
        };
        store_new(analyzer, name, t);
        Ok(())
    }
}

/// The compiler's check of an assignment, which then stores the variable
/// as assigned again.
fn compile_assignment(analyzer: &mut Analyzer, name_token: &Token, operator: &Token, left: &OperationNode) -> (r:
    Result<(), String>)
    requires
        all_typed(stack_of(*old(analyzer))),
        stack_of(*old(analyzer)).len() > 0,
        has_values(left@),
    ensures
        final(analyzer).mode == old(analyzer).mode,
        all_typed(stack_of(*final(analyzer))),
        stack_of(*final(analyzer)).len() == stack_of(*old(analyzer)).len(),
        ({
            let (st, e) = compiler_assign(
                stack_of(*old(analyzer)),
                old(analyzer).mode,
                name_token@,
                operator@,
                left@,
            );
            stack_of(*final(analyzer)) == st && outcome_is(r, e)
        }),
{
    let mode = analyzer.mode;
    if !is_variable_exists(analyzer, &name_token.value) {
        if operator.token_type != TokenType::Assign {
            let message = framed("Undefined variable `", &name_token.value, "`");
            return Err(syntax_error_string(mode, message, name_token));
        }
        let node_type = match analyze_operation_node(analyzer, left) {
            Ok(t) => t,
            Err(e) => {
                return Err(e);
            },
        };
        store_new(analyzer, name_token, infer_type(node_type));
        return Ok(());
    }
    let variable = match get_variable(analyzer, &name_token.value) {
        Ok(v) => v,
        Err(e) => {
            return Err(e);
        },
    };
    proof {
        lemma_found_typed(stack_of(*analyzer), name_token.value@);
    }
    let variable_type = variable.variable_type.unwrap();
    let operator_type = operator.token_type;
    if (variable_type == TokenType::String && operator_type != TokenType::Assign && operator_type
        != TokenType::PlusEqual) || (variable_type == TokenType::Char && operator_type
        != TokenType::Assign) || (variable_type == TokenType::Bool && operator_type
        != TokenType::Assign) {
        let variable_name = variable.name.unwrap();
        let message = operation_message(
            "Invalid operation",
            operator_type,
            &variable_name,
            variable_type,
        );
        return Err(syntax_error_string(mode, message, name_token));
    }
    let node_type = match analyze_operation_node(analyzer, left) {
        Ok(t) => t,
        Err(e) => {
            return Err(e);
        },
    };
    if node_type == TokenType::True || node_type == TokenType::False || node_type == TokenType::Bool {
        if variable_type != TokenType::Bool {
            return Err(assign_message(mode, node_type, variable_type, name_token));
        }
    } else if node_type == TokenType::IntNumber || node_type == TokenType::DoubleNumber {
        if variable_type != TokenType::Int && variable_type != TokenType::Double {
            return Err(assign_message(mode, node_type, variable_type, name_token));
        }
    } else if node_type == TokenType::Character || node_type == TokenType::StringSequence {
        if variable_type != TokenType::String && variable_type != TokenType::Char {
            return Err(assign_message(mode, node_type, variable_type, name_token));
        }
    }
    let mut new_variable = Variable::new();
    new_variable.name = Some(name_token.value.clone());
    new_variable.is_reasigned = true;
    new_variable.variable_type = Some(variable_type);
    new_variable.value = variable.value.clone();
    proof {
        lemma_store_typed(stack_of(*analyzer), new_variable@);
    }
    insert_variable_into_current_environmment(analyzer, new_variable);
    Ok(())
}

/// Checks a whole tree as the compiler does: each definition and assignment
/// stores its variable in the innermost scope, once its value checks; each
/// block of an `if` has a scope of its own.
pub fn analyze(analyzer: &mut Analyzer, syntax_tree: StatementsNode) -> (r: Result<(), String>)
    requires
        all_typed(stack_of(*old(analyzer))),
        stack_of(*old(analyzer)).len() > 0,
        block_ready(syntax_tree, 0),
    ensures
        final(analyzer).mode == old(analyzer).mode,
        ({
            let (st, e) = compiler_block(stack_of(*old(analyzer)), old(analyzer).mode, syntax_tree, 0);
            stack_of(*final(analyzer)) == st && outcome_is(r, e)
        }),
        r is Ok ==> stack_of(*final(analyzer)).len() == stack_of(*old(analyzer)).len(),
        all_typed(stack_of(*final(analyzer))),
{
    analyze_statements(analyzer, &syntax_tree)
}

/// Checks the statements of a block, in order, up to the first error.
fn analyze_statements(analyzer: &mut Analyzer, block: &StatementsNode) -> (r: Result<(), String>)
    requires
        all_typed(stack_of(*old(analyzer))),
        stack_of(*old(analyzer)).len() > 0,
        block_ready(*block, 0),
    ensures
        final(analyzer).mode == old(analyzer).mode,
        all_typed(stack_of(*final(analyzer))),
        r is Ok ==> stack_of(*final(analyzer)).len() == stack_of(*old(analyzer)).len(),
        ({
            let (st, e) = compiler_block(stack_of(*old(analyzer)), old(analyzer).mode, *block, 0);
            stack_of(*final(analyzer)) == st && outcome_is(r, e)
        }),
    decreases *block, block.statements@.len(),
{
    let ghost mode = analyzer.mode;
    let ghost st0 = stack_of(*analyzer);
    let mut i: usize = 0;
    while i < block.statements.len()
        invariant
            i <= block.statements@.len(),
            analyzer.mode == mode,
            mode == old(analyzer).mode,
            st0 == stack_of(*old(analyzer)),
            all_typed(stack_of(*analyzer)),
            stack_of(*analyzer).len() == st0.len(),
            st0.len() > 0,
            block_ready(*block, i as int),
            compiler_block(st0, mode, *block, 0) == compiler_block(stack_of(*analyzer), mode, *block, i as int),
        decreases block.statements@.len() - i,
    {
        match analyze_statement(analyzer, &block.statements[i]) {
            Ok(()) => {},
            Err(e) => {
                return Err(e);
            },
        }
        i = i + 1;
    }
    Ok(())
}

/// Checks one statement.
fn analyze_statement(analyzer: &mut Analyzer, statement: &StatementNode) -> (r: Result<(), String>)
    requires
        all_typed(stack_of(*old(analyzer))),
        stack_of(*old(analyzer)).len() > 0,
        statement_ready(*statement),
    ensures
        final(analyzer).mode == old(analyzer).mode,
        all_typed(stack_of(*final(analyzer))),
        r is Ok ==> stack_of(*final(analyzer)).len() == stack_of(*old(analyzer)).len(),
        ({
            let (st, e) = compiler_statement(stack_of(*old(analyzer)), old(analyzer).mode, *statement);
            stack_of(*final(analyzer)) == st && outcome_is(r, e)
        }),
    decreases *statement, 0int,
{
    match statement.statement_type {
        Some(StatementType::DefineBool) => {
            let d = statement.define_bool_statement.as_ref().unwrap();
            compile_definition(
                analyzer,
                StatementType::DefineBool,
                d.name.as_ref().unwrap(),
                d.left.as_ref().unwrap(),
            )
        },
        Some(StatementType::DefineInt) => {
            let d = statement.define_int_statement.as_ref().unwrap();
            compile_definition(
                analyzer,
                StatementType::DefineInt,
                d.name.as_ref().unwrap(),
                d.left.as_ref().unwrap(),
            )
        },
        Some(StatementType::DefineDouble) => {
            let d = statement.define_double_statement.as_ref().unwrap();
            compile_definition(
                analyzer,
                StatementType::DefineDouble,
                d.name.as_ref().unwrap(),
                d.left.as_ref().unwrap(),
            )
        },
        Some(StatementType::DefineChar) => {
            let d = statement.define_char_statement.as_ref().unwrap();
            compile_definition(
                analyzer,
                StatementType::DefineChar,
                d.name.as_ref().unwrap(),
                d.left.as_ref().unwrap(),
            )
        },
        Some(StatementType::DefineString) => {
            let d = statement.define_string_statement.as_ref().unwrap();
            compile_definition(
                analyzer,
                StatementType::DefineString,
                d.name.as_ref().unwrap(),
                d.left.as_ref().unwrap(),
            )
        },
        Some(StatementType::DefineVar) => {
            let d = statement.define_var_statement.as_ref().unwrap();
            compile_definition(
                analyzer,
                StatementType::DefineVar,
                d.name.as_ref().unwrap(),
                d.left.as_ref().unwrap(),
            )
        },
        Some(StatementType::DefineVariable) => {
            let d = statement.define_variable_statement.as_ref().unwrap();
            compile_assignment(
                analyzer,
                d.name.as_ref().unwrap(),
                d.operator.as_ref().unwrap(),
                d.left.as_ref().unwrap(),
            )
        },
        Some(StatementType::Print) => {
            let d = statement.define_print_statement.as_ref().unwrap();
            let variable = d.variable.as_ref().unwrap();
            if !is_variable_exists(analyzer, &variable.value) {
                let message = framed("Undefined variable `", &variable.value, "`");
                return Err(syntax_error_string(analyzer.mode, message, variable));
            }
            Ok(())
        },
        Some(StatementType::DefineIf) => {
            analyze_if_statement(analyzer, statement.define_if_statement.as_ref().unwrap())
        },
        _ => Ok(()),
    }
}

/// Checks an `if` statement: each block in a scope of its own.
fn analyze_if_statement(analyzer: &mut Analyzer, statement: &DefineIfStatementNode) -> (r: Result<(), String>)
    requires
        all_typed(stack_of(*old(analyzer))),
        stack_of(*old(analyzer)).len() > 0,
        if_ready(*statement),
    ensures
        final(analyzer).mode == old(analyzer).mode,
        all_typed(stack_of(*final(analyzer))),
        r is Ok ==> stack_of(*final(analyzer)).len() == stack_of(*old(analyzer)).len(),
        ({
            let (st, e) = compiler_if(stack_of(*old(analyzer)), old(analyzer).mode, *statement);
            stack_of(*final(analyzer)) == st && outcome_is(r, e)
        }),
    decreases *statement, statement.define_if_else_nodes@.len() + 2,
{
    let ghost mode = analyzer.mode;
    let ghost st0 = stack_of(*analyzer);
    let define_if_node = statement.define_if_node.as_ref().unwrap();
    match analyze_branch(
        analyzer,
        define_if_node.token.as_ref().unwrap(),
        define_if_node.condition.as_ref().unwrap(),
        &define_if_node.statements,
    ) {
        Ok(()) => {},
        Err(e) => {
            return Err(e);
        },
    }
    let ghost s1 = stack_of(*analyzer);
    let mut j: usize = 0;
    while j < statement.define_if_else_nodes.len()
        invariant
            j <= statement.define_if_else_nodes@.len(),
            analyzer.mode == mode,
            mode == old(analyzer).mode,
            st0 == stack_of(*old(analyzer)),
            compiler_if(st0, mode, *statement) == compiler_if_rest(s1, mode, *statement),
            all_typed(stack_of(*analyzer)),
            stack_of(*analyzer).len() == s1.len(),
            s1.len() > 0,
            else_ifs_ready(*statement, j as int),
            compiler_else_ifs(s1, mode, *statement, 0) == compiler_else_ifs(
                stack_of(*analyzer),
                mode,
                *statement,
                j as int,
            ),
        decreases statement.define_if_else_nodes@.len() - j,
    {
        let define_if_else_node = &statement.define_if_else_nodes[j];
        assert(else_if_ready(*define_if_else_node));
        match analyze_branch(
            analyzer,
            define_if_else_node.token.as_ref().unwrap(),
            define_if_else_node.condition.as_ref().unwrap(),
            &define_if_else_node.statements,
        ) {
            Ok(()) => {},
            Err(e) => {
                return Err(e);
            },
        }
        j = j + 1;
    }
    match &statement.define_else_node {
        None => Ok(()),
        Some(define_else_node) => {
            proof {
                lemma_scope_typed(stack_of(*analyzer));
            }
            let ghost before = stack_of(*analyzer);
            analyzer.environments_stack.push_back(Environment::new(EnvironmentScope::If));
            assert(stack_of(*analyzer) =~= before.push(if_scope()));
            match analyze_statements(analyzer, &define_else_node.statements) {
                Ok(()) => {},
                Err(e) => {
                    return Err(e);
                },
            }
            let ghost after = stack_of(*analyzer);
            let _ = analyzer.environments_stack.pop_back();
            assert(stack_of(*analyzer) =~= after.drop_last());
            proof {
                lemma_scope_typed(after);
            }
            Ok(())
        },
    }
}

/// Checks one block of an `if`: in a scope of its own, the condition must
/// be a boolean, then the statements.
fn analyze_branch(analyzer: &mut Analyzer, token: &Token, condition: &OperationNode, body: &StatementsNode) -> (r:
    Result<(), String>)
    requires
        all_typed(stack_of(*old(analyzer))),
        stack_of(*old(analyzer)).len() > 0,
        has_values(condition@),
        block_ready(*body, 0),
    ensures
        final(analyzer).mode == old(analyzer).mode,
        all_typed(stack_of(*final(analyzer))),
        r is Ok ==> stack_of(*final(analyzer)).len() == stack_of(*old(analyzer)).len(),
        ({
            let (st, e) = compiler_branch(
                stack_of(*old(analyzer)),
                old(analyzer).mode,
                token@,
                condition@,
                *body,
            );
            stack_of(*final(analyzer)) == st && outcome_is(r, e)
        }),
    decreases *body, body.statements@.len() + 1,
{
    proof {
        lemma_scope_typed(stack_of(*analyzer));
    }
    let ghost before = stack_of(*analyzer);
    analyzer.environments_stack.push_back(Environment::new(EnvironmentScope::If));
    assert(stack_of(*analyzer) =~= before.push(if_scope()));
    let node_type = match analyze_operation_node(analyzer, condition) {
        Ok(t) => t,
        Err(e) => {
            return Err(e);
        },
    };
    if node_type != TokenType::Bool && node_type != TokenType::True && node_type != TokenType::False {
        return Err(analyze_error_string(analyzer.mode, "if condition must be `Bool`", token));
    }
    match analyze_statements(analyzer, body) {
        Ok(()) => {},
        Err(e) => {
            return Err(e);
        },
    }
    let ghost after = stack_of(*analyzer);
    let _ = analyzer.environments_stack.pop_back();
    assert(stack_of(*analyzer) =~= after.drop_last());
    proof {
        lemma_scope_typed(after);
    }
    Ok(())
}

/// Stores `variable` in the innermost scope, in place of the variable of
/// the same name there, if any.
pub fn insert_variable_into_current_environmment(analyzer: &mut Analyzer, variable: Variable)
    requires
        old(analyzer).environments_stack@.len() > 0,
        variable.name is Some,
    ensures
        final(analyzer).mode == old(analyzer).mode,
        stack_of(*final(analyzer)) == store(stack_of(*old(analyzer)), variable@),
{
    let ghost st = stack_of(*analyzer);
    let mut env = analyzer.environments_stack.pop_back().unwrap();
    assert(env@ == st.last());
    put_into(&mut env, variable);
    analyzer.environments_stack.push_back(env);
    assert(stack_of(*analyzer) =~= store(st, variable@));
}

/// Stores `variable` in the scope, in place of the first variable of the
/// same name, or after the others.
pub(crate) fn put_into(env: &mut Environment, variable: Variable)
    requires
        variable.name is Some,
    ensures
        final(env)@ == (EnvironmentView {
            scope: old(env)@.scope,
            variables: put_var(old(env)@.variables, variable@),
        }),
{
    let ghost old_vars = env@.variables;
    let name = variable.name.as_ref().unwrap().clone();
    let ghost v = variable@;
    match find_in_environment(env, &name) {
        Some(j) => {
            proof {
                lemma_put_first(old_vars, v, name@, j as int);
            }
            env.variables.set(j, variable);
        },
        None => {
            proof {
                lemma_put_absent(old_vars, v, name@);
            }
            env.variables.push(variable);
        },
    }
    assert(env@.variables =~= put_var(old_vars, v));
}

/// Storing where the first variable of the same name is replaces it.
proof fn lemma_put_first(vars: Seq<VariableView>, v: VariableView, n: Seq<char>, j: int)
    requires
        v.name == Some(n),
        0 <= j < vars.len(),
        is_named(vars[j], n),
        forall|k: int| 0 <= k < j ==> !is_named(#[trigger] vars[k], n),
    ensures
        put_var(vars, v) == vars.update(j, v),
    decreases vars.len(),
{
    if j == 0 {
        assert(put_var(vars, v) =~= vars.update(j, v));
    } else {
        assert(!is_named(vars[0], n));
        assert forall|k: int| 0 <= k < j - 1 implies !is_named(#[trigger] vars.drop_first()[k], n) by {
            assert(vars.drop_first()[k] == vars[k + 1]);
        }
        lemma_put_first(vars.drop_first(), v, n, j - 1);
        assert(put_var(vars, v) =~= vars.update(j, v));
    }
}

/// Storing a name that is not there adds it at the end.
proof fn lemma_put_absent(vars: Seq<VariableView>, v: VariableView, n: Seq<char>)
    requires
        v.name == Some(n),
        find_var(vars, n) is None,
    ensures
        put_var(vars, v) == vars.push(v),
    decreases vars.len(),
{
    if vars.len() > 0 {
        lemma_put_absent(vars.drop_first(), v, n);
        assert(put_var(vars, v) =~= vars.push(v));
    } else {
        assert(put_var(vars, v) =~= vars.push(v));
    }
}

/* Laws of operation types */

/// Two booleans (`bool` or a literal) combine into a boolean under `&&`,
/// `||`, `==` and `!=`, and under no other operator.
pub proof fn lemma_boolean_operations(op: OperatorType, lt: TokenType, rt: TokenType, n: OperationNodeView, mode: Mode)
    requires
        op != OperatorType::Convert,
        lt == TokenType::Bool || lt == TokenType::True || lt == TokenType::False,
        rt == TokenType::Bool || rt == TokenType::True || rt == TokenType::False,
    ensures
        op == OperatorType::And || op == OperatorType::Or || op == OperatorType::Equal || op == OperatorType::NotEqual
            ==> operation_type(op, lt, rt, n, mode) == Ok::<TokenType, Seq<char>>(TokenType::Bool),
        !(op == OperatorType::And || op == OperatorType::Or || op == OperatorType::Equal || op
            == OperatorType::NotEqual) ==> operation_type(op, lt, rt, n, mode) is Err,
{
}

/// Two integers give an integer under `+`, `-`, `*` and `%`, a double under
/// `/`, and a boolean under a comparison.
pub proof fn lemma_integer_operations(op: OperatorType, n: OperationNodeView, mode: Mode)
    requires
        op != OperatorType::Convert,
    ensures
        op == OperatorType::Plus || op == OperatorType::Minus || op == OperatorType::Mul || op == OperatorType::Mod
            ==> operation_type(op, TokenType::IntNumber, TokenType::IntNumber, n, mode) == Ok::<TokenType, Seq<char>>(
            TokenType::IntNumber,
        ),
        op == OperatorType::Div ==> operation_type(op, TokenType::IntNumber, TokenType::IntNumber, n, mode) == Ok::<
            TokenType,
            Seq<char>,
        >(TokenType::DoubleNumber),
        op == OperatorType::Equal || op == OperatorType::NotEqual || op == OperatorType::LessThan || op
            == OperatorType::LessThanOrEqual || op == OperatorType::GreaterThan || op == OperatorType::GreaterThanOrEqual
            ==> operation_type(op, TokenType::IntNumber, TokenType::IntNumber, n, mode) == Ok::<TokenType, Seq<char>>(
            TokenType::Bool,
        ),
{
}

/// Texts (strings and characters) join into a string under `+`, and under
/// no other operator.
pub proof fn lemma_text_operations(op: OperatorType, lt: TokenType, rt: TokenType, n: OperationNodeView, mode: Mode)
    requires
        op != OperatorType::Convert,
        lt == TokenType::StringSequence || lt == TokenType::Character,
        rt == TokenType::StringSequence || rt == TokenType::Character,
    ensures
        op == OperatorType::Plus ==> operation_type(op, lt, rt, n, mode) == Ok::<TokenType, Seq<char>>(
            TokenType::StringSequence,
        ),
        op != OperatorType::Plus ==> operation_type(op, lt, rt, n, mode) is Err,
{
}

} // verus!
