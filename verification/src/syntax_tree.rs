use std::collections::VecDeque;

use vstd::prelude::*;

use crate::tokens::{views, Token, TokenType, TokenView};
use vstd::std_specs::vecdeque::VecDequeAdditionalSpecFns;

verus! {

/// The kinds of statements the parser produces.
#[derive(Debug, Clone, Copy, PartialEq, Eq, Structural)]
pub enum StatementType {
    Discarded,
    DefineBool,
    DefineInt,
    DefineDouble,
    DefineChar,
    DefineString,
    DefineVariable,
    DefineVar,
    Print,
    DefineIf,
}

/// The operators of expressions.
#[derive(Debug, Clone, Copy, PartialEq, Eq, Structural)]
pub enum OperatorType {
    Plus,
    Minus,
    Mul,
    Div,
    Mod,
    Convert,
    Equal,
    GreaterThanOrEqual,
    GreaterThan,
    LessThanOrEqual,
    LessThan,
    NotEqual,
    Or,
    And,
}

/// A node of an expression tree. A leaf carries its token in `value`; an
/// operation carries the operator's token, the operator and its operands.
#[derive(Debug, PartialEq)]
pub struct OperationNode {
    pub value: Option<Token>,
    pub operator: Option<OperatorType>,
    pub left: Option<Box<OperationNode>>,
    pub right: Option<Box<OperationNode>>,
}

impl Clone for OperationNode {
    fn clone(&self) -> (r: Self)
        ensures
            r == *self,
        decreases self,
    {
        let value = match &self.value {
            Some(t) => Some(t.clone()),
            None => None,
        };
        let left = match &self.left {
            Some(l) => Some(Box::new((&**l).clone())),
            None => None,
        };
        let right = match &self.right {
            Some(x) => Some(Box::new((&**x).clone())),
            None => None,
        };
        OperationNode { value, operator: self.operator, left, right }
    }
}

/// The node with nothing in it.
pub open spec fn empty_operation() -> OperationNode {
    OperationNode { value: None, operator: None, left: None, right: None }
}

/// An expression tree with its tokens as views.
pub ghost struct OperationNodeView {
    pub value: Option<TokenView>,
    pub operator: Option<OperatorType>,
    pub left: Option<Box<OperationNodeView>>,
    pub right: Option<Box<OperationNodeView>>,
}

/// The view of an expression tree.
pub open spec fn node_view(n: OperationNode) -> OperationNodeView
    decreases n,
{
    OperationNodeView {
        value: match n.value {
            Some(t) => Some(t@),
            None => None,
        },
        operator: n.operator,
        left: match n.left {
            Some(l) => Some(Box::new(node_view(*l))),
            None => None,
        },
        right: match n.right {
            Some(r) => Some(Box::new(node_view(*r))),
            None => None,
        },
    }
}

impl View for OperationNode {
    type V = OperationNodeView;

    open spec fn view(&self) -> OperationNodeView {
        node_view(*self)
    }
}

impl OperationNode {
    pub fn new() -> (r: Self)
        ensures
            r == empty_operation(),
    {
        OperationNode { value: None, operator: None, left: None, right: None }
    }
}

#[derive(Debug, Clone, PartialEq)]
pub struct DefineBoolNode {
    pub name: Option<Token>,
    pub operator: Option<Token>,
    pub left: Option<OperationNode>,
}

impl DefineBoolNode {
    pub fn new() -> (r: Self)
        ensures
            r == (DefineBoolNode { name: None, operator: None, left: None }),
    {
        DefineBoolNode { name: None, operator: None, left: None }
    }
}

#[derive(Debug, Clone, PartialEq)]
pub struct DefineIntNode {
    pub name: Option<Token>,
    pub operator: Option<Token>,
    pub left: Option<OperationNode>,
}

impl DefineIntNode {
    pub fn new() -> (r: Self)
        ensures
            r == (DefineIntNode { name: None, operator: None, left: None }),
    {
        DefineIntNode { name: None, operator: None, left: None }
    }
}

#[derive(Debug, Clone, PartialEq)]
pub struct DefineDoubleNode {
    pub name: Option<Token>,
    pub operator: Option<Token>,
    pub left: Option<OperationNode>,
}

impl DefineDoubleNode {
    pub fn new() -> (r: Self)
        ensures
            r == (DefineDoubleNode { name: None, operator: None, left: None }),
    {
        DefineDoubleNode { name: None, operator: None, left: None }
    }
}

#[derive(Debug, Clone, PartialEq)]
pub struct DefineCharNode {
    pub name: Option<Token>,
    pub operator: Option<Token>,
    pub left: Option<OperationNode>,
}

impl DefineCharNode {
    pub fn new() -> (r: Self)
        ensures
            r == (DefineCharNode { name: None, operator: None, left: None }),
    {
        DefineCharNode { name: None, operator: None, left: None }
    }
}

#[derive(Debug, Clone, PartialEq)]
pub struct DefineStringNode {
    pub name: Option<Token>,
    pub operator: Option<Token>,
    pub left: Option<OperationNode>,
}

impl DefineStringNode {
    pub fn new() -> (r: Self)
        ensures
            r == (DefineStringNode { name: None, operator: None, left: None }),
    {
        DefineStringNode { name: None, operator: None, left: None }
    }
}

#[derive(Debug, Clone, PartialEq)]
pub struct DefineVariableNode {
    pub name: Option<Token>,
    pub operator: Option<Token>,
    pub left: Option<OperationNode>,
}

impl DefineVariableNode {
    pub fn new() -> (r: Self)
        ensures
            r == (DefineVariableNode { name: None, operator: None, left: None }),
    {
        DefineVariableNode { name: None, operator: None, left: None }
    }
}

#[derive(Debug, Clone, PartialEq)]
pub struct DefineVarNode {
    pub name: Option<Token>,
    pub operator: Option<Token>,
    pub left: Option<OperationNode>,
}

impl DefineVarNode {
    pub fn new() -> (r: Self)
        ensures
            r == (DefineVarNode { name: None, operator: None, left: None }),
    {
        DefineVarNode { name: None, operator: None, left: None }
    }
}

#[derive(Debug, Clone, PartialEq)]
pub struct DefinePrintNode {
    pub variable: Option<Token>,
}

impl DefinePrintNode {
    pub fn new() -> (r: Self)
        ensures
            r == (DefinePrintNode { variable: None }),
    {
        DefinePrintNode { variable: None }
    }
}

#[derive(Debug, PartialEq)]
pub struct DefineElseNode {
    pub statements: StatementsNode,
}

impl DefineElseNode {
    pub fn new() -> (r: Self)
        ensures
            r.statements.statements@ == Seq::<StatementNode>::empty(),
    {
        DefineElseNode { statements: StatementsNode::new() }
    }
}

#[derive(Debug, PartialEq)]
pub struct DefineIfElseNode {
    pub token: Option<Token>,
    pub condition: Option<OperationNode>,
    pub statements: StatementsNode,
}

impl DefineIfElseNode {
    pub fn new() -> (r: Self)
        ensures
            r.token is None,
            r.condition is None,
            r.statements.statements@ == Seq::<StatementNode>::empty(),
    {
        DefineIfElseNode { token: None, condition: None, statements: StatementsNode::new() }
    }
}

#[derive(Debug, PartialEq)]
pub struct DefineIfNode {
    pub token: Option<Token>,
    pub condition: Option<OperationNode>,
    pub statements: StatementsNode,
}

impl DefineIfNode {
    pub fn new() -> (r: Self)
        ensures
            r.token is None,
            r.condition is None,
            r.statements.statements@ == Seq::<StatementNode>::empty(),
    {
        DefineIfNode { token: None, condition: None, statements: StatementsNode::new() }
    }
}

#[derive(Debug, PartialEq)]
pub struct DefineIfStatementNode {
    pub define_if_node: Option<DefineIfNode>,
    pub define_if_else_nodes: VecDeque<DefineIfElseNode>,
    pub define_else_node: Option<DefineElseNode>,
}

impl DefineIfStatementNode {
    pub fn new() -> (r: Self)
        ensures
            r.define_if_node is None,
            r.define_if_else_nodes@ == Seq::<DefineIfElseNode>::empty(),
            r.define_else_node is None,
    {
        DefineIfStatementNode {
            define_if_node: None,
            define_if_else_nodes: VecDeque::new(),
            define_else_node: None,
        }
    }
}

#[derive(Debug, PartialEq)]
pub struct StatementNode {
    pub statement_type: Option<StatementType>,
    pub define_bool_statement: Option<DefineBoolNode>,
    pub define_int_statement: Option<DefineIntNode>,
    pub define_double_statement: Option<DefineDoubleNode>,
    pub define_char_statement: Option<DefineCharNode>,
    pub define_string_statement: Option<DefineStringNode>,
    pub define_variable_statement: Option<DefineVariableNode>,
    pub define_var_statement: Option<DefineVarNode>,
    pub define_print_statement: Option<DefinePrintNode>,
    pub define_if_statement: Option<DefineIfStatementNode>,
}

/// The statement with no kind and no parts.
pub open spec fn empty_statement() -> StatementNode {
    StatementNode {
        statement_type: None,
        define_bool_statement: None,
        define_int_statement: None,
        define_double_statement: None,
        define_char_statement: None,
        define_string_statement: None,
        define_variable_statement: None,
        define_var_statement: None,
        define_print_statement: None,
        define_if_statement: None,
    }
}

impl StatementNode {
    pub fn new() -> (r: Self)
        ensures
            r == empty_statement(),
    {
        StatementNode {
            statement_type: None,
            define_bool_statement: None,
            define_int_statement: None,
            define_double_statement: None,
            define_char_statement: None,
            define_string_statement: None,
            define_variable_statement: None,
            define_var_statement: None,
            define_print_statement: None,
            define_if_statement: None,
        }
    }
}

#[derive(Debug, PartialEq)]
pub struct StatementsNode {
    pub statements: VecDeque<StatementNode>,
}

impl StatementsNode {
    pub fn new() -> (r: Self)
        ensures
            r.statements@ == Seq::<StatementNode>::empty(),
    {
        StatementsNode { statements: VecDeque::new() }
    }
}

/// The parts of a definition are there, and the expression's nodes carry
/// tokens.
pub open spec fn definition_ready(name: Option<Token>, left: Option<OperationNode>) -> bool {
    &&& name is Some
    &&& left matches Some(l) && has_values(l@)
}

/// The statement has the parts its kind names, all the way down.
pub open spec fn statement_ready(st: StatementNode) -> bool
    decreases st, 0int,
{
    match st.statement_type {
        Some(StatementType::DefineBool) => st.define_bool_statement matches Some(d) && definition_ready(d.name, d.left),
        Some(StatementType::DefineInt) => st.define_int_statement matches Some(d) && definition_ready(d.name, d.left),
        Some(StatementType::DefineDouble) => st.define_double_statement matches Some(d) && definition_ready(d.name, d.left),
        Some(StatementType::DefineChar) => st.define_char_statement matches Some(d) && definition_ready(d.name, d.left),
        Some(StatementType::DefineString) => st.define_string_statement matches Some(d) && definition_ready(d.name, d.left),
        Some(StatementType::DefineVar) => st.define_var_statement matches Some(d) && definition_ready(d.name, d.left),
        Some(StatementType::DefineVariable) => st.define_variable_statement matches Some(d) && (definition_ready(d.name, d.left) && d.operator is Some),
        Some(StatementType::Print) => st.define_print_statement matches Some(d) && d.variable is Some,
        Some(StatementType::DefineIf) => st.define_if_statement matches Some(ifs) && if_ready(ifs),
        _ => true,
    }
}

/// The `if` statement has its parts, all the way down.
pub open spec fn if_ready(ifs: DefineIfStatementNode) -> bool
    decreases ifs, ifs.define_if_else_nodes@.len() + 1,
{
    &&& ifs.define_if_node matches Some(n) && (n.token is Some && (n.condition matches Some(c) && has_values(c@)) && block_ready(n.statements, 0))
    &&& else_ifs_ready(ifs, 0)
    &&& ifs.define_else_node matches Some(e) ==> block_ready(e.statements, 0)
}

/// The `else if` parts from the `j`-th on have their parts.
pub open spec fn else_ifs_ready(ifs: DefineIfStatementNode, j: int) -> bool
    decreases ifs, ifs.define_if_else_nodes@.len() - j,
{
    if j < 0 || j >= ifs.define_if_else_nodes@.len() {
        true
    } else {
        else_if_ready(ifs.define_if_else_nodes[j]) && else_ifs_ready(ifs, j + 1)
    }
}

/// An `else if` part has its parts.
pub open spec fn else_if_ready(n: DefineIfElseNode) -> bool
    decreases n, 0int,
{
    &&& n.token is Some
    &&& n.condition matches Some(c) && has_values(c@)
    &&& block_ready(n.statements, 0)
}

/// The statements of the block from the `i`-th on have their parts.
pub open spec fn block_ready(b: StatementsNode, i: int) -> bool
    decreases b, b.statements@.len() - i,
{
    if i < 0 || i >= b.statements@.len() {
        true
    } else {
        statement_ready(b.statements[i]) && block_ready(b, i + 1)
    }
}

/// The `else if` parts are ready from `j` on when each of them from `j` on is.
pub proof fn lemma_else_ifs_ready(ifs: DefineIfStatementNode, j: int)
    requires
        0 <= j,
    ensures
        else_ifs_ready(ifs, j) <==> forall|k: int|
            j <= k < ifs.define_if_else_nodes@.len() ==> else_if_ready(
                #[trigger] ifs.define_if_else_nodes@[k],
            ),
    decreases ifs.define_if_else_nodes@.len() - j,
{
    if j < ifs.define_if_else_nodes@.len() {
        lemma_else_ifs_ready(ifs, j + 1);
        assert(ifs.define_if_else_nodes[j] == ifs.define_if_else_nodes@[j]);
    }
}

/// A block is ready from `i` on when each of its statements from `i` on is.
pub proof fn lemma_block_ready(b: StatementsNode, i: int)
    requires
        0 <= i,
    ensures
        block_ready(b, i) <==> forall|k: int|
            i <= k < b.statements@.len() ==> statement_ready(#[trigger] b.statements@[k]),
    decreases b.statements@.len() - i,
{
    if i < b.statements@.len() {
        lemma_block_ready(b, i + 1);
        assert(b.statements[i] == b.statements@[i]);
    }
}

/* Byte-code instructions as the compiler describes them */

#[derive(Debug, Clone, Copy, PartialEq, Eq, Structural)]
pub enum InstructionType {
    Assign,
    Convert,
    Operation,
    Print,
    Input,
    If,
    Else,
    GoTo,
    End,
}

#[derive(Debug, Clone, PartialEq)]
pub struct AssignInstruction {
    pub assign_type: Option<TokenType>,
    pub variable_name: Option<String>,
    pub value: Option<String>,
    pub line: Option<u128>,
}

#[derive(Debug, Clone, PartialEq)]
pub struct ConvertInstruction {
    pub convertion_type: Option<TokenType>,
    pub convert_to: Option<String>,
    pub convert_from: Option<String>,
    pub line: Option<u128>,
}

#[derive(Debug, Clone, PartialEq)]
pub struct OperationInstruction {
    pub operation_type: Option<TokenType>,
    pub left_variable: Option<String>,
    pub right_variable: Option<String>,
    pub assign_to_variable: Option<String>,
    pub line: Option<u128>,
}

#[derive(Debug, Clone, PartialEq)]
pub struct PrintInstruction {
    pub variable_name: Option<String>,
    pub line: Option<u128>,
}

#[derive(Debug, Clone, PartialEq)]
pub struct InputInstruction {
    pub variable_name: Option<String>,
    pub line: Option<u128>,
}

#[derive(Debug, Clone, PartialEq)]
pub struct IfInstruction {
    pub variable_name: Option<String>,
    pub condition_fail_goto_line: Option<u128>,
    pub line: Option<u128>,
}

#[derive(Debug, Clone, PartialEq)]
pub struct ElseInstruction {
    pub line: Option<u128>,
}

#[derive(Debug, Clone, PartialEq)]
pub struct GoToInstruction {
    pub goto_line: Option<u128>,
    pub line: Option<u128>,
}

#[derive(Debug, Clone, PartialEq)]
pub struct Instruction {
    pub instruction_type: Option<InstructionType>,
    pub assign_instruction: Option<AssignInstruction>,
    pub convert_instruction: Option<ConvertInstruction>,
    pub operation_instruction: Option<OperationInstruction>,
    pub print_instruction: Option<PrintInstruction>,
    pub input_instruction: Option<InputInstruction>,
    pub if_instruction: Option<IfInstruction>,
    pub else_instruction: Option<ElseInstruction>,
    pub goto_instruction: Option<GoToInstruction>,
}


/* Expressions */

/// Kinds of tokens that stand alone as the leaves of an expression.
pub open spec fn is_leaf_type(t: TokenType) -> bool {
    ||| t == TokenType::IntNumber
    ||| t == TokenType::DoubleNumber
    ||| t == TokenType::Variable
    ||| t == TokenType::True
    ||| t == TokenType::False
    ||| t == TokenType::Character
    ||| t == TokenType::StringSequence
}

/// The operator that a token of kind `t` stands for at precedence `level`
/// (0: `||`, 1: `&&`, 2: `==` `!=`, 3: `<` `<=` `>` `>=`, 4: `+` `-`,
/// 5: `*` `/` `%`), if any.
pub open spec fn level_operator(level: int, t: TokenType) -> Option<OperatorType> {
    if level == 0 && t == TokenType::Or {
        Some(OperatorType::Or)
    } else if level == 1 && t == TokenType::And {
        Some(OperatorType::And)
    } else if level == 2 && t == TokenType::Equal {
        Some(OperatorType::Equal)
    } else if level == 2 && t == TokenType::NotEqual {
        Some(OperatorType::NotEqual)
    } else if level == 3 && t == TokenType::GreaterThan {
        Some(OperatorType::GreaterThan)
    } else if level == 3 && t == TokenType::GreaterThanOrEqual {
        Some(OperatorType::GreaterThanOrEqual)
    } else if level == 3 && t == TokenType::LessThan {
        Some(OperatorType::LessThan)
    } else if level == 3 && t == TokenType::LessThanOrEqual {
        Some(OperatorType::LessThanOrEqual)
    } else if level == 4 && t == TokenType::Plus {
        Some(OperatorType::Plus)
    } else if level == 4 && t == TokenType::Minus {
        Some(OperatorType::Minus)
    } else if level == 5 && t == TokenType::Mul {
        Some(OperatorType::Mul)
    } else if level == 5 && t == TokenType::Div {
        Some(OperatorType::Div)
    } else if level == 5 && t == TokenType::Mod {
        Some(OperatorType::Mod)
    } else {
        None
    }
}

/// The node with nothing in it, as a view.
pub open spec fn empty_node() -> OperationNodeView {
    OperationNodeView { value: None, operator: None, left: None, right: None }
}

/// Every node of the tree carries a token.
pub open spec fn has_values(n: OperationNodeView) -> bool
    decreases n,
{
    &&& n.value is Some
    &&& match n.left {
        Some(l) => has_values(*l),
        None => true,
    }
    &&& match n.right {
        Some(r) => has_values(*r),
        None => true,
    }
}

/// A leaf holding the token `t`.
pub open spec fn leaf_node(t: TokenView) -> OperationNodeView {
    OperationNodeView { value: Some(t), operator: None, left: None, right: None }
}

/// The operation `op` with operator token `t` applied to `l` and `r`.
pub open spec fn binary_node(t: TokenView, op: OperatorType, l: OperationNodeView, r: OperationNodeView) -> OperationNodeView {
    OperationNodeView {
        value: Some(t),
        operator: Some(op),
        left: Some(Box::new(l)),
        right: Some(Box::new(r)),
    }
}

/// An `input` read converted to the type that the token `t` names.
pub open spec fn convert_node(t: TokenView) -> OperationNodeView {
    OperationNodeView {
        value: Some(t),
        operator: Some(OperatorType::Convert),
        left: None,
        right: None,
    }
}

/// Reading an expression of precedence `level` (0 to 5, see `level_operator`;
/// 6 for a single operand) from the front of `s`: the tree and the tokens
/// left over, or `None` where the tokens run out before the expression ends.
/// Binary operators group to the right; a token that begins no operand
/// becomes an empty node.
pub open spec fn parse_expression(level: int, s: Seq<TokenView>) -> Option<(OperationNodeView, Seq<TokenView>)>
    decreases s.len(), 6 - level,
{
    if level < 0 || level > 6 {
        None
    } else if level == 6 {
        if s.len() == 0 {
            None
        } else {
            let t = s[0];
            let rest = s.drop_first();
            if is_leaf_type(t.token_type) {
                Some((leaf_node(t), rest))
            } else if t.token_type == TokenType::OpenParenthes {
                match parse_expression(0, rest) {
                    Some((n, r)) => if r.len() > 0 {
                        Some((n, r.drop_first()))
                    } else {
                        None
                    },
                    None => None,
                }
            } else if t.token_type == TokenType::Input {
                if rest.len() > 0 {
                    Some((convert_node(rest[0]), rest.drop_first()))
                } else {
                    None
                }
            } else {
                Some((empty_node(), rest))
            }
        }
    } else {
        match parse_expression(level + 1, s) {
            None => None,
            Some((l, r)) => if r.len() == 0 {
                Some((l, r))
            } else {
                match level_operator(level, r[0].token_type) {
                    None => Some((l, r)),
                    Some(op) => if r.len() <= s.len() {
                        match parse_expression(level, r.drop_first()) {
                            Some((rt, r2)) => Some((binary_node(r[0], op, l, rt), r2)),
                            None => None,
                        }
                    } else {
                        None
                    },
                }
            },
        }
    }
}

/// Reading an expression at precedence `level` leaves an unaltered suffix
/// of the tokens, shorter than them, whose first token is no operator of
/// precedence `level` or lower; at level 0 it is no operator at all.
pub proof fn lemma_parse_expression_rest(level: int, s: Seq<TokenView>)
    ensures
        parse_expression(level, s) matches Some((_, r)) ==> {
            &&& r.len() < s.len()
            &&& r == s.skip(s.len() - r.len())
            &&& r.len() > 0 && level <= 6 ==> operator_level(r[0].token_type) < level
        },
    decreases s.len(), 6 - level,
{
    if level == 6 && s.len() > 0 {
        let rest = s.drop_first();
        assert(rest == s.skip(1));
        if s[0].token_type == TokenType::OpenParenthes {
            lemma_parse_expression_rest(0, rest);
            if let Some((n, r)) = parse_expression(0, rest) {
                if r.len() > 0 {
                    assert(r.drop_first() =~= s.skip(s.len() - r.drop_first().len()));
                }
            }
        } else if s[0].token_type == TokenType::Input && rest.len() > 0 {
            assert(rest.drop_first() =~= s.skip(2));
        }
        assert(operator_level(s[0].token_type) <= 5);
        if s.len() > 1 {
            assert(operator_level(s[1].token_type) <= 5);
        }
    } else if 0 <= level < 6 {
        lemma_parse_expression_rest(level + 1, s);
        if let Some((l, r)) = parse_expression(level + 1, s) {
            if r.len() > 0 {
                lemma_level_operator(level, r[0].token_type);
                if r.len() <= s.len() {
                    lemma_parse_expression_rest(level, r.drop_first());
                    if let Some((rt, r2)) = parse_expression(level, r.drop_first()) {
                        assert(r.drop_first() =~= s.skip(s.len() - r.len() + 1));
                        assert(r2 =~= s.skip(s.len() - r2.len()));
                    }
                }
            }
        }
    }
}

/// The kind of token that stands for a binary operator.
pub open spec fn operator_token(o: OperatorType) -> TokenType {
    match o {
        OperatorType::Plus => TokenType::Plus,
        OperatorType::Minus => TokenType::Minus,
        OperatorType::Mul => TokenType::Mul,
        OperatorType::Div => TokenType::Div,
        OperatorType::Mod => TokenType::Mod,
        OperatorType::Convert => TokenType::Input,
        OperatorType::Equal => TokenType::Equal,
        OperatorType::GreaterThanOrEqual => TokenType::GreaterThanOrEqual,
        OperatorType::GreaterThan => TokenType::GreaterThan,
        OperatorType::LessThanOrEqual => TokenType::LessThanOrEqual,
        OperatorType::LessThan => TokenType::LessThan,
        OperatorType::NotEqual => TokenType::NotEqual,
        OperatorType::Or => TokenType::Or,
        OperatorType::And => TokenType::And,
    }
}

/// Kinds of tokens that name the type an input is read as.
pub open spec fn is_type_token(t: TokenType) -> bool {
    t == TokenType::Bool || t == TokenType::Int || t == TokenType::Double || t == TokenType::Char || t
        == TokenType::String
}

/// Every `input` among the tokens is followed by a token naming a type.
pub open spec fn inputs_typed(s: Seq<TokenView>) -> bool {
    forall|k: int|
        0 <= k < s.len() && (#[trigger] s[k]).token_type == TokenType::Input ==> k + 1 < s.len() && is_type_token(
            s[k + 1].token_type,
        )
}

/// The shape of every node of an expression tree: an operation other than
/// an input has both operands and carries its operator's token; an input
/// has no operands and carries the token of its type; a leaf has no
/// operands and carries, where it carries one, a token of an operand.
pub open spec fn tree_shape(n: OperationNodeView) -> bool
    decreases n,
{
    match n.operator {
        Some(o) => if o != OperatorType::Convert {
            &&& n.value matches Some(t) && t.token_type == operator_token(o)
            &&& match (n.left, n.right) {
                (Some(l), Some(r)) => tree_shape(*l) && tree_shape(*r),
                _ => false,
            }
        } else {
            &&& n.left is None && n.right is None
            &&& n.value matches Some(t) && is_type_token(t.token_type)
        },
        None => {
            &&& n.left is None && n.right is None
            &&& match n.value {
                Some(t) => is_leaf_type(t.token_type),
                None => true,
            }
        },
    }
}

/// What follows the first tokens of typed inputs has typed inputs.
proof fn lemma_inputs_typed_skip(s: Seq<TokenView>, j: int)
    requires
        inputs_typed(s),
        0 <= j <= s.len(),
    ensures
        inputs_typed(s.skip(j)),
{
    assert forall|k: int|
        0 <= k < s.skip(j).len() && (#[trigger] s.skip(j)[k]).token_type == TokenType::Input implies k + 1
            < s.skip(j).len() && is_type_token(s.skip(j)[k + 1].token_type) by {
        assert(s.skip(j)[k] == s[j + k]);
        assert(s[j + k].token_type == TokenType::Input);
    }
}

/// The operator that a level reads from a token is the one the token stands
/// for.
proof fn lemma_operator_token(level: int, t: TokenType)
    ensures
        level_operator(level, t) matches Some(o) ==> t == operator_token(o) && o != OperatorType::Convert,
{
}

/// The tree read from tokens whose inputs name their types has the shape
/// of `tree_shape` at every node.
#[verifier::rlimit(60)]
pub proof fn lemma_parse_tree_shape(level: int, s: Seq<TokenView>)
    requires
        inputs_typed(s),
    ensures
        parse_expression(level, s) matches Some((n, _)) ==> tree_shape(n),
    decreases s.len(), 6 - level,
{
    if level == 6 && s.len() > 0 {
        let rest = s.drop_first();
        assert(rest == s.skip(1));
        lemma_inputs_typed_skip(s, 1);
        if s[0].token_type == TokenType::OpenParenthes {
            lemma_parse_tree_shape(0, rest);
        } else if s[0].token_type == TokenType::Input && rest.len() > 0 {
            assert(rest[0] == s[1]);
            assert(tree_shape(convert_node(rest[0])));
        } else if is_leaf_type(s[0].token_type) {
            assert(tree_shape(leaf_node(s[0])));
        } else {
            assert(tree_shape(empty_node()));
        }
    } else if 0 <= level < 6 {
        lemma_parse_tree_shape(level + 1, s);
        lemma_parse_expression_rest(level + 1, s);
        if let Some((l, r)) = parse_expression(level + 1, s) {
            if r.len() > 0 && r.len() <= s.len() {
                lemma_operator_token(level, r[0].token_type);
                lemma_inputs_typed_skip(s, s.len() - r.len() + 1);
                assert(r.drop_first() =~= s.skip(s.len() - r.len() + 1));
                lemma_parse_tree_shape(level, r.drop_first());
                if let (Some(op), Some((rt, r2))) = (
                    level_operator(level, r[0].token_type),
                    parse_expression(level, r.drop_first()),
                ) {
                    assert(tree_shape(binary_node(r[0], op, l, rt)));
                }
            }
        }
    }
}

/// The tree built of a well-formed expression, whose inputs name their
/// types, carries a token at every node and has the shape of `tree_shape`:
/// no node carries a parenthesis.
pub proof fn lemma_expression_tree_shape(e: ExpressionShape)
    requires
        expression_ok(e),
        inputs_typed(expression_tokens(e)),
    ensures
        parse_expression(0, expression_tokens(e)) matches Some((n, _)) && tree_shape(n) && has_values(n),
{
    lemma_parse_shape(0, e, Seq::empty());
    assert(expression_tokens(e) + Seq::<TokenView>::empty() =~= expression_tokens(e));
    lemma_parse_tree_shape(0, expression_tokens(e));
}

/// An expression always takes at least one token.
pub proof fn lemma_parse_expression_consumes(level: int, s: Seq<TokenView>)
    ensures
        parse_expression(level, s) matches Some((_, r)) ==> r.len() < s.len(),
    decreases s.len(), 6 - level,
{
    if 0 <= level < 6 {
        lemma_parse_expression_consumes(level + 1, s);
        if let Some((l, r)) = parse_expression(level + 1, s) {
            if r.len() > 0 && r.len() <= s.len() {
                lemma_parse_expression_consumes(level, r.drop_first());
            }
        }
    } else if level == 6 && s.len() > 0 {
        lemma_parse_expression_consumes(0, s.drop_first());
    }
}

/// Views of a sequence are taken element by element.
proof fn lemma_views(s: Seq<Token>)
    ensures
        views(s).len() == s.len(),
        forall|i: int| 0 <= i < s.len() ==> #[trigger] views(s)[i] == s[i]@,
        s.len() > 0 ==> views(s.subrange(1, s.len() as int)) =~= views(s).drop_first(),
{
    if s.len() > 0 {
        assert(views(s.subrange(1, s.len() as int)) =~= views(s).drop_first());
    }
}

/// Reads an expression from the front of `tokens` and leaves the rest.
pub fn construct_expression_node(tokens: &mut VecDeque<Token>) -> (node: OperationNode)
    requires
        parse_expression(0, views(old(tokens)@)) is Some,
    ensures
        parse_expression(0, views(old(tokens)@)) == Some((node@, views(final(tokens)@))),
{
    __first_precedence_expression(tokens)
}

/// `||`
fn __first_precedence_expression(tokens: &mut VecDeque<Token>) -> (node: OperationNode)
    requires
        parse_expression(0, views(old(tokens)@)) is Some,
    ensures
        parse_expression(0, views(old(tokens)@)) == Some((node@, views(final(tokens)@))),
    decreases old(tokens)@.len(), 10nat,
{
    let ghost s = tokens@;
    let left = __second_precedence_expression(tokens);
    proof {
        lemma_parse_expression_consumes(1, views(s));
    }
    let ghost s1 = tokens@;
    proof {
        lemma_views(s1);
    }
    let maybe_token = tokens.pop_front();
    proof {
        lemma_views(tokens@);
    }
    match maybe_token {
        None => left,
        Some(t) => {
            match t.token_type {
                TokenType::Or => {
                    let right = __first_precedence_expression(tokens);
                    OperationNode {
                        value: Some(t),
                        operator: Some(OperatorType::Or),
                        left: Some(Box::new(left)),
                        right: Some(Box::new(right)),
                    }
                },
                _ => {
                    tokens.push_front(t);
                    left
                },
            }
        },
    }
}

/// `&&`
fn __second_precedence_expression(tokens: &mut VecDeque<Token>) -> (node: OperationNode)
    requires
        parse_expression(1, views(old(tokens)@)) is Some,
    ensures
        parse_expression(1, views(old(tokens)@)) == Some((node@, views(final(tokens)@))),
    decreases old(tokens)@.len(), 9nat,
{
    let ghost s = tokens@;
    let left = __third_precedence_expression(tokens);
    proof {
        lemma_parse_expression_consumes(2, views(s));
    }
    let ghost s1 = tokens@;
    proof {
        lemma_views(s1);
    }
    let maybe_token = tokens.pop_front();
    proof {
        lemma_views(tokens@);
    }
    match maybe_token {
        None => left,
        Some(t) => {
            match t.token_type {
                TokenType::And => {
                    let right = __second_precedence_expression(tokens);
                    OperationNode {
                        value: Some(t),
                        operator: Some(OperatorType::And),
                        left: Some(Box::new(left)),
                        right: Some(Box::new(right)),
                    }
                },
                _ => {
                    tokens.push_front(t);
                    left
                },
            }
        },
    }
}

/// `|` (no operator of its own yet)
fn __third_precedence_expression(tokens: &mut VecDeque<Token>) -> (node: OperationNode)
    requires
        parse_expression(2, views(old(tokens)@)) is Some,
    ensures
        parse_expression(2, views(old(tokens)@)) == Some((node@, views(final(tokens)@))),
    decreases old(tokens)@.len(), 8nat,
{
    __fourth_precedence_expression(tokens)
}

/// `^` (no operator of its own yet)
fn __fourth_precedence_expression(tokens: &mut VecDeque<Token>) -> (node: OperationNode)
    requires
        parse_expression(2, views(old(tokens)@)) is Some,
    ensures
        parse_expression(2, views(old(tokens)@)) == Some((node@, views(final(tokens)@))),
    decreases old(tokens)@.len(), 7nat,
{
    __fifth_precedence_expression(tokens)
}

/// `&` (no operator of its own yet)
fn __fifth_precedence_expression(tokens: &mut VecDeque<Token>) -> (node: OperationNode)
    requires
        parse_expression(2, views(old(tokens)@)) is Some,
    ensures
        parse_expression(2, views(old(tokens)@)) == Some((node@, views(final(tokens)@))),
    decreases old(tokens)@.len(), 6nat,
{
    __six_precedence_expression(tokens)
}

/// `==` `!=`
fn __six_precedence_expression(tokens: &mut VecDeque<Token>) -> (node: OperationNode)
    requires
        parse_expression(2, views(old(tokens)@)) is Some,
    ensures
        parse_expression(2, views(old(tokens)@)) == Some((node@, views(final(tokens)@))),
    decreases old(tokens)@.len(), 5nat,
{
    let ghost s = tokens@;
    let left = __seven_precedence_expression(tokens);
    proof {
        lemma_parse_expression_consumes(3, views(s));
    }
    let ghost s1 = tokens@;
    proof {
        lemma_views(s1);
    }
    let maybe_token = tokens.pop_front();
    proof {
        lemma_views(tokens@);
    }
    match maybe_token {
        None => left,
        Some(t) => {
            match t.token_type {
                TokenType::Equal => {
                    let right = __six_precedence_expression(tokens);
                    OperationNode {
                        value: Some(t),
                        operator: Some(OperatorType::Equal),
                        left: Some(Box::new(left)),
                        right: Some(Box::new(right)),
                    }
                },
                TokenType::NotEqual => {
                    let right = __six_precedence_expression(tokens);
                    OperationNode {
                        value: Some(t),
                        operator: Some(OperatorType::NotEqual),
                        left: Some(Box::new(left)),
                        right: Some(Box::new(right)),
                    }
                },
                _ => {
                    tokens.push_front(t);
                    left
                },
            }
        },
    }
}

/// `<` `<=` `>` `>=`
fn __seven_precedence_expression(tokens: &mut VecDeque<Token>) -> (node: OperationNode)
    requires
        parse_expression(3, views(old(tokens)@)) is Some,
    ensures
        parse_expression(3, views(old(tokens)@)) == Some((node@, views(final(tokens)@))),
    decreases old(tokens)@.len(), 4nat,
{
    let ghost s = tokens@;
    let left = __eight_precedence_expression(tokens);
    proof {
        lemma_parse_expression_consumes(4, views(s));
    }
    let ghost s1 = tokens@;
    proof {
        lemma_views(s1);
    }
    let maybe_token = tokens.pop_front();
    proof {
        lemma_views(tokens@);
    }
    match maybe_token {
        None => left,
        Some(t) => {
            let op = match t.token_type {
                TokenType::GreaterThan => OperatorType::GreaterThan,
                TokenType::GreaterThanOrEqual => OperatorType::GreaterThanOrEqual,
                TokenType::LessThan => OperatorType::LessThan,
                TokenType::LessThanOrEqual => OperatorType::LessThanOrEqual,
                _ => {
                    tokens.push_front(t);
                    return left;
                },
            };
            let right = __seven_precedence_expression(tokens);
            OperationNode {
                value: Some(t),
                operator: Some(op),
                left: Some(Box::new(left)),
                right: Some(Box::new(right)),
            }
        },
    }
}

/// `+` `-`
fn __eight_precedence_expression(tokens: &mut VecDeque<Token>) -> (node: OperationNode)
    requires
        parse_expression(4, views(old(tokens)@)) is Some,
    ensures
        parse_expression(4, views(old(tokens)@)) == Some((node@, views(final(tokens)@))),
    decreases old(tokens)@.len(), 3nat,
{
    let ghost s = tokens@;
    let left = __nine_precedence_expression(tokens);
    proof {
        lemma_parse_expression_consumes(5, views(s));
    }
    let ghost s1 = tokens@;
    proof {
        lemma_views(s1);
    }
    let maybe_token = tokens.pop_front();
    proof {
        lemma_views(tokens@);
    }
    match maybe_token {
        None => left,
        Some(t) => {
            let op = match t.token_type {
                TokenType::Plus => OperatorType::Plus,
                TokenType::Minus => OperatorType::Minus,
                _ => {
                    tokens.push_front(t);
                    return left;
                },
            };
            let right = __eight_precedence_expression(tokens);
            OperationNode {
                value: Some(t),
                operator: Some(op),
                left: Some(Box::new(left)),
                right: Some(Box::new(right)),
            }
        },
    }
}

/// `*` `/` `%`
fn __nine_precedence_expression(tokens: &mut VecDeque<Token>) -> (node: OperationNode)
    requires
        parse_expression(5, views(old(tokens)@)) is Some,
    ensures
        parse_expression(5, views(old(tokens)@)) == Some((node@, views(final(tokens)@))),
    decreases old(tokens)@.len(), 2nat,
{
    let ghost s = tokens@;
    let left = __last_expression(tokens);
    proof {
        lemma_parse_expression_consumes(6, views(s));
    }
    let ghost s1 = tokens@;
    proof {
        lemma_views(s1);
    }
    let maybe_token = tokens.pop_front();
    proof {
        lemma_views(tokens@);
    }
    match maybe_token {
        None => left,
        Some(t) => {
            let op = match t.token_type {
                TokenType::Mul => OperatorType::Mul,
                TokenType::Div => OperatorType::Div,
                TokenType::Mod => OperatorType::Mod,
                _ => {
                    tokens.push_front(t);
                    return left;
                },
            };
            let right = __nine_precedence_expression(tokens);
            OperationNode {
                value: Some(t),
                operator: Some(op),
                left: Some(Box::new(left)),
                right: Some(Box::new(right)),
            }
        },
    }
}

/// An operand: a literal, a variable, a parenthesised expression or an
/// `input` read.
fn __last_expression(tokens: &mut VecDeque<Token>) -> (node: OperationNode)
    requires
        parse_expression(6, views(old(tokens)@)) is Some,
    ensures
        parse_expression(6, views(old(tokens)@)) == Some((node@, views(final(tokens)@))),
    decreases old(tokens)@.len(), 1nat,
{
    let ghost s = tokens@;
    proof {
        lemma_views(s);
    }
    let maybe_token = tokens.pop_front();
    proof {
        lemma_views(tokens@);
    }
    let t = match maybe_token {
        Some(t) => t,
        None => {
            assert(false);
            return OperationNode::new();
        },
    };
    match t.token_type {
        TokenType::IntNumber | TokenType::DoubleNumber | TokenType::Variable | TokenType::True
        | TokenType::False | TokenType::Character | TokenType::StringSequence => {
            OperationNode { value: Some(t), operator: None, left: None, right: None }
        },
        TokenType::OpenParenthes => {
            let node = __first_precedence_expression(tokens);
            proof {
                lemma_views(tokens@);
            }
            let _ = tokens.pop_front();
            proof {
                lemma_views(tokens@);
            }
            node
        },
        TokenType::Input => {
            let value = tokens.pop_front();
            proof {
                lemma_views(tokens@);
            }
            OperationNode { value, operator: Some(OperatorType::Convert), left: None, right: None }
        },
        _ => OperationNode::new(),
    }
}


/* The shape of the token lists that the statement parser collects */

/// An operand as the statement parser collects it.
pub ghost enum OperandShape {
    Leaf(TokenView),
    Input(TokenView, TokenView),
    Paren(TokenView, Box<ExpressionShape>, TokenView),
}

/// An expression as the statement parser collects it: operands joined by
/// binary operators.
pub ghost enum ExpressionShape {
    Operand(OperandShape),
    Binary(OperandShape, TokenView, Box<ExpressionShape>),
}

/// The tokens of an operand, in order.
pub open spec fn operand_tokens(o: OperandShape) -> Seq<TokenView>
    decreases o,
{
    match o {
        OperandShape::Leaf(t) => seq![t],
        OperandShape::Input(t, ty) => seq![t, ty],
        OperandShape::Paren(open, e, close) => seq![open] + expression_tokens(*e) + seq![close],
    }
}

/// The tokens of an expression, in order.
pub open spec fn expression_tokens(e: ExpressionShape) -> Seq<TokenView>
    decreases e,
{
    match e {
        ExpressionShape::Operand(o) => operand_tokens(o),
        ExpressionShape::Binary(o, op, r) => operand_tokens(o) + seq![op] + expression_tokens(*r),
    }
}

/// The precedence level of a binary operator token.
pub open spec fn operator_level(t: TokenType) -> int {
    if t == TokenType::Or {
        0
    } else if t == TokenType::And {
        1
    } else if t == TokenType::Equal || t == TokenType::NotEqual {
        2
    } else if t == TokenType::GreaterThan || t == TokenType::GreaterThanOrEqual || t
        == TokenType::LessThan || t == TokenType::LessThanOrEqual {
        3
    } else if t == TokenType::Plus || t == TokenType::Minus {
        4
    } else if t == TokenType::Mul || t == TokenType::Div || t == TokenType::Mod {
        5
    } else {
        -1
    }
}

pub open spec fn operand_ok(o: OperandShape) -> bool
    decreases o,
{
    match o {
        OperandShape::Leaf(t) => is_leaf_type(t.token_type),
        OperandShape::Input(t, _) => t.token_type == TokenType::Input,
        OperandShape::Paren(open, e, close) => open.token_type == TokenType::OpenParenthes
            && close.token_type == TokenType::CloseParenthes && expression_ok(*e),
    }
}

/// Every operand and operator of the shape has the right kind of token.
pub open spec fn expression_ok(e: ExpressionShape) -> bool
    decreases e,
{
    match e {
        ExpressionShape::Operand(o) => operand_ok(o),
        ExpressionShape::Binary(o, op, r) => operand_ok(o) && operator_level(op.token_type) >= 0
            && expression_ok(*r),
    }
}

/// What a parse at precedence `level` leaves of `e` followed by `t`: the
/// tokens from the first operator of a lower level on.
pub open spec fn rest_after(level: int, e: ExpressionShape, t: Seq<TokenView>) -> Seq<TokenView>
    decreases e,
{
    match e {
        ExpressionShape::Operand(_) => t,
        ExpressionShape::Binary(_, op, r) => if operator_level(op.token_type) < level {
            seq![op] + expression_tokens(*r) + t
        } else {
            rest_after(level, *r, t)
        },
    }
}

/// A token that no level takes as an operator.
pub open spec fn ends_expression(t: Seq<TokenView>) -> bool {
    t.len() == 0 || operator_level(t[0].token_type) < 0
}

proof fn lemma_level_operator(level: int, t: TokenType)
    requires
        0 <= level <= 5,
    ensures
        level_operator(level, t) is Some <==> operator_level(t) == level,
        level_operator(level, t) matches Some(op) ==> level_operator(level, t) == Some(op),
{
}

/// No operator has a level below 0.
proof fn lemma_rest_after_zero(e: ExpressionShape, t: Seq<TokenView>)
    requires
        expression_ok(e),
    ensures
        rest_after(0, e, t) == t,
    decreases e,
{
    if let ExpressionShape::Binary(_, _, r) = e {
        lemma_rest_after_zero(*r, t);
    }
}

/// How a parse at level `level` goes on after it has read the operand in
/// front of `r` at level `level + 1` and been left `rest_after(level + 1, r, t)`.
proof fn lemma_parse_continues(
    level: int,
    r: ExpressionShape,
    t: Seq<TokenView>,
    s: Seq<TokenView>,
    l: OperationNodeView,
)
    requires
        0 <= level <= 5,
        expression_ok(r),
        ends_expression(t),
        parse_expression(level + 1, s) == Some((l, rest_after(level + 1, r, t))),
        rest_after(level + 1, r, t).len() <= s.len(),
        has_values(l),
    ensures
        parse_expression(level, s) matches Some((n, x)) && x == rest_after(level, r, t) && has_values(
            n,
        ),
    decreases r, 0int, 0int,
{
    match r {
        ExpressionShape::Operand(_) => {
            if t.len() > 0 {
                lemma_level_operator(level, t[0].token_type);
            }
        },
        ExpressionShape::Binary(_, op2, r3) => {
            let lv = operator_level(op2.token_type);
            lemma_level_operator(level, op2.token_type);
            assert(expression_ok(*r3));
            if lv < level {
                assert((seq![op2] + expression_tokens(*r3) + t)[0] == op2);
            } else if lv == level {
                let r1 = seq![op2] + expression_tokens(*r3) + t;
                assert(r1[0] == op2);
                assert(r1.drop_first() =~= expression_tokens(*r3) + t);
                lemma_parse_shape(level, *r3, t);
            } else {
                lemma_parse_continues(level, *r3, t, s, l);
            }
        },
    }
}

/// The expression parser reads an expression that the statement parser
/// collected: at each level it stops at the first operator of a lower level,
/// and at level 0 it reads the whole expression.
pub proof fn lemma_parse_shape(level: int, e: ExpressionShape, t: Seq<TokenView>)
    requires
        0 <= level <= 6,
        expression_ok(e),
        ends_expression(t),
    ensures
        parse_expression(level, expression_tokens(e) + t) matches Some((n, r)) && r == rest_after(
            level,
            e,
            t,
        ) && has_values(n),
    decreases e, 6 - level, 1int,
{
    let s = expression_tokens(e) + t;
    if level == 6 {
        let o = match e {
            ExpressionShape::Operand(o) => o,
            ExpressionShape::Binary(o, _, _) => o,
        };
        let after = match e {
            ExpressionShape::Operand(_) => t,
            ExpressionShape::Binary(_, op, r2) => seq![op] + expression_tokens(*r2) + t,
        };
        assert(s =~= operand_tokens(o) + after);
        assert(operand_ok(o));
        match o {
            OperandShape::Leaf(t0) => {
                assert(s[0] == t0);
                assert(s.drop_first() =~= after);
            },
            OperandShape::Input(t0, ty) => {
                assert(s[0] == t0);
                assert(s.drop_first()[0] == ty);
                assert(s.drop_first().drop_first() =~= after);
            },
            OperandShape::Paren(open, inner, close) => {
                let tail = seq![close] + after;
                assert(s[0] == open);
                assert(s.drop_first() =~= expression_tokens(*inner) + tail);
                assert(tail[0] == close);
                assert(operand_ok(o));
                assert(expression_ok(*inner));
                lemma_parse_shape(0, *inner, tail);
                lemma_rest_after_zero(*inner, tail);
                assert(tail.drop_first() =~= after);
            },
        }
    } else {
        lemma_parse_shape(level + 1, e, t);
        lemma_parse_expression_consumes(level + 1, s);
        let l = parse_expression(level + 1, s).unwrap().0;
        match e {
            ExpressionShape::Operand(_) => {
                if t.len() > 0 {
                    lemma_level_operator(level, t[0].token_type);
                }
            },
            ExpressionShape::Binary(o, op, r) => {
                let lv = operator_level(op.token_type);
                lemma_level_operator(level, op.token_type);
                assert(expression_ok(*r));
                if lv < level {
                    assert((seq![op] + expression_tokens(*r) + t)[0] == op);
                } else if lv == level {
                    let r1 = seq![op] + expression_tokens(*r) + t;
                    assert(s =~= operand_tokens(o) + r1);
                    assert(r1[0] == op);
                    assert(r1.drop_first() =~= expression_tokens(*r) + t);
                    lemma_parse_shape(level, *r, t);
                } else {
                    lemma_parse_continues(level, *r, t, s, l);
                }
            },
        }
    }
}

/// An expression that the statement parser collected is read whole, down to
/// its last token.
pub proof fn lemma_parse_whole_expression(e: ExpressionShape)
    requires
        expression_ok(e),
    ensures
        parse_expression(0, expression_tokens(e)) matches Some((n, r)) && r.len() == 0 && has_values(
            n,
        ),
{
    lemma_parse_shape(0, e, Seq::<TokenView>::empty());
    lemma_rest_after_zero(e, Seq::<TokenView>::empty());
    assert(expression_tokens(e) + Seq::<TokenView>::empty() =~= expression_tokens(e));
}

} // verus!
