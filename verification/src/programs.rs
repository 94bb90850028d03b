//! Whole programs: a parsed tree checked for the parts that parsing gives
//! every statement and for its size, then analysed, or written as byte code
//! or as Rust, each from a fresh start.

use vstd::prelude::*;

use crate::analyzer::{analyze, compiler_block, outcome_is, tree_of, Analyzer};
use crate::bytecode::{
    block_names, block_size, branch_size, decodes, else_ifs_size, gen_done, gen_program, generate_byte_code,
    if_size, node_count, numbered, statement_size, ByteCodeGenerator, GenState,
};
use crate::code_generator::{code_done, code_program, generate, CodeGenerator, CodeState};
use crate::constants::Mode;
use crate::environments::{all_typed, EnvironmentScope, EnvironmentView};
use crate::syntax_tree::{
    block_ready, else_if_ready, else_ifs_ready, has_values, if_ready, statement_ready, DefineIfStatementNode,
    OperationNode, StatementNode, StatementType, StatementsNode,
};

verus! {

/// `n`, where it fits in a `u64`.
pub open spec fn capped(n: nat) -> Option<u64> {
    if n <= u64::MAX {
        Some(n as u64)
    } else {
        None
    }
}

/// The scopes that every analysis and generation starts from: the
/// outermost one, empty.
pub open spec fn first_scopes() -> Seq<EnvironmentView> {
    seq![EnvironmentView { scope: EnvironmentScope::Main, variables: Seq::empty() }]
}

/// A tree is small enough where its size bound fits in a `u64`.
pub open spec fn small_enough(tree: StatementsNode) -> bool {
    block_size(tree, 0) <= u64::MAX
}

/// `x + y`, where it fits in a `u64`.
fn add_sizes(a: u64, b: u64) -> (r: Option<u64>)
    ensures
        r == capped((a + b) as nat),
{
    a.checked_add(b)
}

/// Whether an expression has a token at every node, and its node count.
fn node_check(n: &OperationNode) -> (r: (bool, Option<u64>))
    ensures
        r.0 == has_values(n@),
        r.0 ==> r.1 == capped(node_count(n@)),
    decreases n,
{
    if n.value.is_none() {
        return (false, None);
    }
    let mut total: Option<u64> = Some(1);
    let ghost mut counted: nat = 1;
    match &n.left {
        Some(l) => {
            let (ok, c) = node_check(&**l);
            if !ok {
                return (false, None);
            }
            total = match (total, c) {
                (Some(x), Some(y)) => add_sizes(x, y),
                _ => None,
            };
            proof {
                counted = counted + node_count(l@);
            }
        },
        None => {},
    }
    assert(total == capped(counted));
    match &n.right {
        Some(x) => {
            let (ok, c) = node_check(&**x);
            if !ok {
                return (false, None);
            }
            total = match (total, c) {
                (Some(a), Some(b)) => add_sizes(a, b),
                _ => None,
            };
            proof {
                counted = counted + node_count(x@);
            }
        },
        None => {},
    }
    assert(counted == node_count(n@));
    (true, total)
}

/// Whether an optional expression is there with a token at every node, and
/// its node count.
fn expression_check(o: &Option<OperationNode>) -> (r: (bool, Option<u64>))
    ensures
        r.0 == (o matches Some(l) && has_values(l@)),
        r.0 ==> r.1 == capped(node_count(tree_of(*o))),
{
    match o {
        Some(l) => node_check(l),
        None => (false, None),
    }
}

/// A definition's check: its name is there, and its expression; its size is
/// one more than the expression's nodes.
fn definition_check(named: bool, left: &Option<OperationNode>) -> (r: (bool, Option<u64>))
    ensures
        r.0 == (named && (left matches Some(l) && has_values(l@))),
        r.0 ==> r.1 == capped(node_count(tree_of(*left)) + 1),
{
    if !named {
        return (false, None);
    }
    let (ok, c) = expression_check(left);
    if !ok {
        return (false, None);
    }
    match c {
        Some(x) => (true, add_sizes(x, 1)),
        None => (true, None),
    }
}

/// Whether a statement has the parts its kind names, and its size bound.
fn statement_check(st: &StatementNode) -> (r: (bool, Option<u64>))
    ensures
        r.0 == statement_ready(*st),
        r.0 ==> r.1 == capped(statement_size(*st)),
    decreases st, 0int,
{
    match st.statement_type {
        Some(StatementType::DefineBool) => match &st.define_bool_statement {
            Some(d) => definition_check(d.name.is_some(), &d.left),
            None => (false, None),
        },
        Some(StatementType::DefineInt) => match &st.define_int_statement {
            Some(d) => definition_check(d.name.is_some(), &d.left),
            None => (false, None),
        },
        Some(StatementType::DefineDouble) => match &st.define_double_statement {
            Some(d) => definition_check(d.name.is_some(), &d.left),
            None => (false, None),
        },
        Some(StatementType::DefineChar) => match &st.define_char_statement {
            Some(d) => definition_check(d.name.is_some(), &d.left),
            None => (false, None),
        },
        Some(StatementType::DefineString) => match &st.define_string_statement {
            Some(d) => definition_check(d.name.is_some(), &d.left),
            None => (false, None),
        },
        Some(StatementType::DefineVar) => match &st.define_var_statement {
            Some(d) => definition_check(d.name.is_some(), &d.left),
            None => (false, None),
        },
        Some(StatementType::DefineVariable) => match &st.define_variable_statement {
            Some(d) => definition_check(d.name.is_some() && d.operator.is_some(), &d.left),
            None => (false, None),
        },
        Some(StatementType::Print) => match &st.define_print_statement {
            Some(d) => (d.variable.is_some(), Some(1)),
            None => (false, None),
        },
        Some(StatementType::DefineIf) => match &st.define_if_statement {
            Some(ifs) => if_check(ifs),
            None => (false, None),
        },
        _ => (true, Some(0)),
    }
}

/// Whether the statements of a block from the `i`-th on have their parts,
/// and their size bound.
fn block_check(b: &StatementsNode, i: usize) -> (r: (bool, Option<u64>))
    requires
        i <= b.statements@.len(),
    ensures
        r.0 == block_ready(*b, i as int),
        r.0 ==> r.1 == capped(block_size(*b, i as int)),
    decreases b, b.statements@.len() - i,
{
    if i >= b.statements.len() {
        return (true, Some(0));
    }
    let (ok, s) = statement_check(&b.statements[i]);
    if !ok {
        return (false, None);
    }
    let (rest_ok, rest) = block_check(b, i + 1);
    if !rest_ok {
        return (false, None);
    }
    match (s, rest) {
        (Some(x), Some(y)) => (true, add_sizes(x, y)),
        _ => (true, None),
    }
}

/// Whether a condition and its block have their parts, and their size
/// bound.
fn branch_check(condition: &Option<OperationNode>, body: &StatementsNode) -> (r: (bool, Option<u64>))
    ensures
        r.0 == ((condition matches Some(c) && has_values(c@)) && block_ready(*body, 0)),
        r.0 ==> r.1 == capped(branch_size(tree_of(*condition), *body)),
    decreases body, body.statements@.len() + 1,
{
    let (ok, c) = expression_check(condition);
    if !ok {
        return (false, None);
    }
    let (body_ok, s) = block_check(body, 0);
    if !body_ok {
        return (false, None);
    }
    match (c, s) {
        (Some(x), Some(y)) => match add_sizes(x, 1) {
            Some(z) => (true, add_sizes(z, y)),
            None => (true, None),
        },
        _ => (true, None),
    }
}

/// Whether the `else if` parts from the `j`-th on have their parts, and
/// their size bound.
fn else_ifs_check(ifs: &DefineIfStatementNode, j: usize) -> (r: (bool, Option<u64>))
    requires
        j <= ifs.define_if_else_nodes@.len(),
    ensures
        r.0 == else_ifs_ready(*ifs, j as int),
        r.0 ==> r.1 == capped(else_ifs_size(*ifs, j as int)),
    decreases ifs, ifs.define_if_else_nodes@.len() - j,
{
    if j >= ifs.define_if_else_nodes.len() {
        return (true, Some(0));
    }
    let n = &ifs.define_if_else_nodes[j];
    assert(*n == ifs.define_if_else_nodes@[j as int]);
    assert(else_if_ready(*n) == (n.token is Some && (n.condition matches Some(c) && has_values(c@)) && block_ready(
        n.statements,
        0,
    )));
    if n.token.is_none() {
        return (false, None);
    }
    let (ok, s) = branch_check(&n.condition, &n.statements);
    if !ok {
        return (false, None);
    }
    let (rest_ok, rest) = else_ifs_check(ifs, j + 1);
    if !rest_ok {
        return (false, None);
    }
    match (s, rest) {
        (Some(x), Some(y)) => (true, add_sizes(x, y)),
        _ => (true, None),
    }
}

/// Whether an `if` statement has its parts, and its size bound.
fn if_check(ifs: &DefineIfStatementNode) -> (r: (bool, Option<u64>))
    ensures
        r.0 == if_ready(*ifs),
        r.0 ==> r.1 == capped(if_size(*ifs)),
    decreases ifs, ifs.define_if_else_nodes@.len() + 2,
{
    let (first_ok, first) = match &ifs.define_if_node {
        Some(n) => if n.token.is_some() {
            branch_check(&n.condition, &n.statements)
        } else {
            (false, None)
        },
        None => (false, None),
    };
    if !first_ok {
        return (false, None);
    }
    let (middle_ok, middle) = else_ifs_check(ifs, 0);
    if !middle_ok {
        return (false, None);
    }
    let (last_ok, last) = match &ifs.define_else_node {
        Some(e) => {
            let (ok, s) = block_check(&e.statements, 0);
            match s {
                Some(x) => (ok, add_sizes(x, 1)),
                None => (ok, None),
            }
        },
        None => (true, Some(0)),
    };
    if !last_ok {
        return (false, None);
    }
    match (first, middle, last) {
        (Some(x), Some(y), Some(z)) => match add_sizes(x, y) {
            Some(w) => (true, add_sizes(w, z)),
            None => (true, None),
        },
        _ => (true, None),
    }
}

/// Whether every statement of a tree has its parts, and its size bound.
pub fn tree_check(tree: &StatementsNode) -> (r: (bool, Option<u64>))
    ensures
        r.0 == block_ready(*tree, 0),
        r.0 ==> r.1 == capped(block_size(*tree, 0)),
{
    block_check(tree, 0)
}

/// Checks a parsed program as the compiler does, from the outermost scope
/// alone: `None` where a statement lacks a part that parsing gives it.
pub fn analyze_program(mode: Mode, syntax_tree: StatementsNode) -> (r: Option<Result<(), String>>)
    ensures
        match r {
            None => !block_ready(syntax_tree, 0),
            Some(x) => block_ready(syntax_tree, 0) && outcome_is(
                x,
                compiler_block(first_scopes(), mode, syntax_tree, 0).1,
            ),
        },
{
    let (ready, _) = tree_check(&syntax_tree);
    if !ready {
        return None;
    }
    let mut analyzer = Analyzer::new(mode);
    assert(all_typed(first_scopes()));
    Some(analyze(&mut analyzer, syntax_tree))
}

/// Writes the byte code of a parsed program with a fresh generator: the
/// generator, which holds the lines it wrote, and the first error, if any.
/// `None` where a statement lacks a part that parsing gives it, or where the
/// tree is too large for the generator's counts.
pub fn byte_code_program(syntax_tree: StatementsNode) -> (r: Option<(ByteCodeGenerator, Result<(), String>)>)
    ensures
        match r {
            None => !block_ready(syntax_tree, 0) || !small_enough(syntax_tree),
            Some((g, x)) => {
                &&& block_ready(syntax_tree, 0) && small_enough(syntax_tree)
                &&& g.tree() == syntax_tree
                &&& gen_done(
                    g.state(),
                    x,
                    gen_program(
                        GenState { lines: Seq::empty(), counter: 0, line: 0, stack: first_scopes() },
                        syntax_tree,
                    ),
                )
                &&& numbered(g.state())
                &&& block_names(syntax_tree, 0) && g.state().line < u128::MAX ==> decodes(g.state())
            },
        },
{
    let (ready, size) = tree_check(&syntax_tree);
    if !ready {
        return None;
    }
    match size {
        None => None,
        Some(_) => {
            let mut generator = ByteCodeGenerator::new(syntax_tree);
            assert(all_typed(first_scopes()));
            let result = generate_byte_code(&mut generator);
            Some((generator, result))
        },
    }
}

/// Writes the Rust program of a parsed program with a fresh generator: the
/// generator, which holds the lines it wrote, and the first error, if any.
/// `None` where a statement lacks a part that parsing gives it, or where the
/// tree is too large for the generator's count.
pub fn rust_program(syntax_tree: StatementsNode) -> (r: Option<(CodeGenerator, Result<(), String>)>)
    ensures
        match r {
            None => !block_ready(syntax_tree, 0) || !small_enough(syntax_tree),
            Some((g, x)) => {
                &&& block_ready(syntax_tree, 0) && small_enough(syntax_tree)
                &&& g.tree() == syntax_tree
                &&& code_done(
                    g.state(),
                    x,
                    code_program(CodeState { lines: Seq::empty(), counter: 0, stack: first_scopes() }, syntax_tree),
                )
            },
        },
{
    let (ready, size) = tree_check(&syntax_tree);
    if !ready {
        return None;
    }
    match size {
        None => None,
        Some(_) => {
            let mut generator = CodeGenerator::new(syntax_tree);
            assert(all_typed(first_scopes()));
            let result = generate(&mut generator);
            Some((generator, result))
        },
    }
}

} // verus!
