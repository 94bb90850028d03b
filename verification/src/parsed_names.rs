use vstd::prelude::*;
use vstd::utf8::*;

use crate::analyzer::{token_of, tree_of};
use crate::bytecode::{
    block_names, branch_names, colon_free, decodes, else_ifs_names, expr_names, gen_program,
    if_names, lemma_program_reads_back, statement_names, GenState,
};
use crate::character::{code_bytes, Character};
use crate::constants::Mode;
use crate::environments::EnvironmentView;
use crate::lexer::{is_alpha_byte, is_word_byte, lead_at, lex_all, lex_token, text_at, texts, word_end};
use crate::parser::{
    all_gaps, binary_operators, comment_gaps, default_convert, define_kind, gaps, inline_gaps, is_gap,
    lemma_pexpr_ok, operand_starts, passign, pbypass, pclose, pconditional, pdefine, pdefine_parts,
    pdefine_variable, pelse, pelse_block, pexpect, pexpr, pif, pinput, pmatch, pmove, poperand, pprint,
    pstatement, pstatements, ptake, else_ifs_are, if_statement_is, statement_is, statements_are, tree_is,
    Parsed, StatementShape, Stream,
};
use crate::syntax_tree::{
    binary_node, block_ready, convert_node, empty_node, expression_ok, expression_tokens, leaf_node,
    lemma_parse_shape, level_operator, operand_tokens, parse_expression, DefineIfElseNode,
    DefineIfStatementNode, ExpressionShape, OperandShape, OperationNode, StatementNode, StatementType,
    StatementsNode,
};
use crate::tokens::{TokenType, TokenView};

verus! {

/// Every variable token among `ts` has a name without colons.
pub open spec fn tokens_named(ts: Seq<TokenView>) -> bool {
    forall|k: int|
        0 <= k < ts.len() && (#[trigger] ts[k]).token_type == TokenType::Variable ==> colon_free(ts[k].value)
}

/// What is left after the first token keeps its names.
proof fn lemma_named_rest(ts: Seq<TokenView>)
    requires
        tokens_named(ts),
        ts.len() > 0,
    ensures
        tokens_named(ts.drop_first()),
{
    assert forall|k: int|
        0 <= k < ts.drop_first().len() && (#[trigger] ts.drop_first()[k]).token_type
            == TokenType::Variable implies colon_free(ts.drop_first()[k].value) by {
        assert(ts.drop_first()[k] == ts[k + 1]);
    }
}

/// The tree read from tokens whose variables have names without colons has
/// such names too, and so do the tokens it leaves.
pub proof fn lemma_parsed_expr_names(level: int, s: Seq<TokenView>)
    requires
        tokens_named(s),
    ensures
        parse_expression(level, s) matches Some((n, r)) ==> expr_names(n) && tokens_named(r),
    decreases s.len(), 6 - level,
{
    if level == 6 && s.len() > 0 {
        let t = s[0];
        let rest = s.drop_first();
        lemma_named_rest(s);
        if t.token_type == TokenType::OpenParenthes {
            lemma_parsed_expr_names(0, rest);
            if let Some((n, r)) = parse_expression(0, rest) {
                if r.len() > 0 {
                    lemma_named_rest(r);
                }
            }
        } else if t.token_type == TokenType::Input {
            if rest.len() > 0 {
                lemma_named_rest(rest);
                assert(expr_names(convert_node(rest[0])));
            }
        } else {
            assert(expr_names(leaf_node(t)));
            assert(expr_names(empty_node()));
        }
    } else if 0 <= level < 6 {
        lemma_parsed_expr_names(level + 1, s);
        if let Some((l, r)) = parse_expression(level + 1, s) {
            if r.len() > 0 && r.len() <= s.len() {
                lemma_named_rest(r);
                lemma_parsed_expr_names(level, r.drop_first());
                if let (Some(op), Some((rt, r2))) = (
                    level_operator(level, r[0].token_type),
                    parse_expression(level, r.drop_first()),
                ) {
                    assert(expr_names(binary_node(r[0], op, l, rt)));
                }
            }
        }
    }
}

/// The token, if it is a variable, has a name without colons.
pub open spec fn token_named(t: TokenView) -> bool {
    t.token_type == TokenType::Variable ==> colon_free(t.value)
}

/// Tokens named one by one, and joined, stay named.
proof fn lemma_named_join(a: Seq<TokenView>, b: Seq<TokenView>)
    requires
        tokens_named(a),
        tokens_named(b),
    ensures
        tokens_named(a + b),
{
    assert forall|k: int| 0 <= k < (a + b).len() && (#[trigger] (a + b)[k]).token_type == TokenType::Variable implies colon_free(
        (a + b)[k].value,
    ) by {
        if k < a.len() {
            assert((a + b)[k] == a[k]);
        } else {
            assert((a + b)[k] == b[k - a.len()]);
        }
    }
}

/// A single named token.
proof fn lemma_named_one(t: TokenView)
    requires
        token_named(t),
    ensures
        tokens_named(seq![t]),
{
    assert forall|k: int| 0 <= k < seq![t].len() && (#[trigger] seq![t][k]).token_type == TokenType::Variable implies colon_free(
        seq![t][k].value,
    ) by {
        assert(seq![t][k] == t);
    }
}

/// Stepping over tokens ends on a token of the stream.
proof fn lemma_bypass_in(s: Stream, p: int, ts: Seq<TokenType>)
    ensures
        pbypass(s, p, ts) matches Ok(q) ==> 0 <= q < s.toks.len(),
    decreases s.toks.len() - p,
{
    if 0 <= p < s.toks.len() && s.toks[p].token_type != TokenType::Eof && ts.contains(s.toks[p].token_type) {
        if let Ok(q) = pmove(s, p) {
            if p < q {
                lemma_bypass_in(s, q, ts);
            }
        }
    }
}

/// A taken token is a token of the stream, of a kind asked for.
proof fn lemma_ptake_named(s: Stream, p: int, skip: Seq<TokenType>, want: Seq<TokenType>)
    requires
        tokens_named(s.toks),
    ensures
        ptake(s, p, skip, want) matches Ok((t, _)) ==> token_named(t) && want.contains(t.token_type),
{
    lemma_bypass_in(s, p, skip);
}

/// A token expected of one kind is of that kind.
proof fn lemma_pexpect_kind(s: Stream, p: int, k: TokenType)
    ensures
        pexpect(s, p, seq![k]) matches Ok((t, _)) ==> t.token_type == k,
{
    if pmatch(s, p, seq![k]) is None {
        let i = choose|i: int| 0 <= i < seq![k].len() && seq![k][i] == s.toks[p].token_type;
        assert(seq![k][0] == k);
    }
}

/// The tokens of an expression read from a named stream are named.
pub proof fn lemma_pexpr_named(s: Stream, p: int, allow_new_line: bool)
    requires
        tokens_named(s.toks),
    ensures
        pexpr(s, p, allow_new_line) matches Ok((e, _)) ==> tokens_named(expression_tokens(e)),
    decreases s.toks.len() - p, 1int,
{
    if let Ok(p1) = pbypass(s, p, gaps(allow_new_line)) {
        if pmatch(s, p1, operand_starts()) is None && p <= p1 < s.toks.len() {
            lemma_poperand_named(s, p1, allow_new_line);
            if let Ok((o, q)) = poperand(s, p1, allow_new_line) {
                if let Ok(q1) = pbypass(s, q, gaps(allow_new_line)) {
                    lemma_bypass_in(s, q, gaps(allow_new_line));
                    if binary_operators().contains(s.toks[q1].token_type) {
                        if let Ok(q2) = pmove(s, q1) {
                            if p < q2 <= s.toks.len() {
                                lemma_pexpr_named(s, q2, allow_new_line);
                                if let Ok((r, q3)) = pexpr(s, q2, allow_new_line) {
                                    lemma_named_one(s.toks[q1]);
                                    lemma_named_join(operand_tokens(o), seq![s.toks[q1]]);
                                    lemma_named_join(operand_tokens(o) + seq![s.toks[q1]], expression_tokens(r));
                                }
                            }
                        }
                    }
                }
            }
        }
    }
}

/// The tokens of an operand read from a named stream are named.
proof fn lemma_poperand_named(s: Stream, p: int, allow_new_line: bool)
    requires
        tokens_named(s.toks),
        0 <= p < s.toks.len(),
    ensures
        poperand(s, p, allow_new_line) matches Ok((o, _)) ==> tokens_named(operand_tokens(o)),
    decreases s.toks.len() - p, 0int,
{
    let t = s.toks[p];
    assert(token_named(t));
    lemma_named_one(t);
    if t.token_type == TokenType::OpenParenthes {
        if let Ok(p2) = pmove(s, p) {
            if p < p2 <= s.toks.len() {
                lemma_pexpr_named(s, p2, true);
                if let Ok((inner, p3)) = pexpr(s, p2, true) {
                    lemma_pexpect_kind(s, p3, TokenType::CloseParenthes);
                    if let Ok((close, p4)) = pexpect(s, p3, seq![TokenType::CloseParenthes]) {
                        lemma_named_one(close);
                        lemma_named_join(seq![t], expression_tokens(inner));
                        lemma_named_join(seq![t] + expression_tokens(inner), seq![close]);
                    }
                }
            }
        }
    } else if t.token_type == TokenType::Input {
        if let Ok(p2) = pmove(s, p) {
            if let Ok((_, p4)) = ptake(s, p2, inline_gaps(), seq![TokenType::OpenParenthes]) {
                if let Ok((_, p6)) = ptake(s, p4, all_gaps(), seq![TokenType::CloseParenthes]) {
                    if let Ok(p7) = pbypass(s, p6, inline_gaps()) {
                        if s.toks[p7].token_type == TokenType::As {
                            if let Ok(p8) = pmove(s, p7) {
                                lemma_ptake_named(s, p8, inline_gaps(), crate::parser::convert_types());
                                if let Ok((ty, p10)) = ptake(s, p8, inline_gaps(), crate::parser::convert_types()) {
                                    lemma_named_one(ty);
                                    lemma_named_join(seq![t], seq![ty]);
                                    assert(seq![t, ty] =~= seq![t] + seq![ty]);
                                }
                            }
                        } else {
                            lemma_named_one(default_convert(t));
                            lemma_named_join(seq![t], seq![default_convert(t)]);
                            assert(seq![t, default_convert(t)] =~= seq![t] + seq![default_convert(t)]);
                        }
                    }
                }
            }
        }
    }
}

/// A kind in a list of one is that kind.
proof fn lemma_one_kind(k: TokenType, x: TokenType)
    requires
        seq![k].contains(x),
    ensures
        x == k,
{
    let i = choose|i: int| 0 <= i < seq![k].len() && seq![k][i] == x;
    assert(seq![k][0] == k);
}

/* Statements */

/// An expression the parser can build a tree of, whose variables have names
/// without colons.
pub open spec fn expr_shape_named(e: ExpressionShape) -> bool {
    expression_ok(e) && tokens_named(expression_tokens(e))
}

/// Every name the statement defines, assigns or reads in an expression holds
/// no colon.
pub open spec fn shape_named(sh: StatementShape) -> bool
    decreases sh, 1int,
{
    match sh {
        StatementShape::Define(_, n, _, e) => colon_free(n.value) && expr_shape_named(e),
        StatementShape::Print(_) => true,
        StatementShape::If(_, cond, body, elifs, els) => {
            &&& expr_shape_named(cond)
            &&& shapes_named(body)
            &&& elifs_named(elifs)
            &&& match els {
                Some(b) => shapes_named(b),
                None => true,
            }
        },
    }
}

/// Every statement of `shs` is named.
pub open spec fn shapes_named(shs: Seq<StatementShape>) -> bool
    decreases shs, 2int,
{
    if shs.len() == 0 {
        true
    } else {
        shape_named(shs[0]) && shapes_named(shs.drop_first())
    }
}

/// Every `else if` part of `parts` is named.
pub open spec fn elifs_named(parts: Seq<(TokenView, ExpressionShape, Seq<StatementShape>)>) -> bool
    decreases parts, 2int,
{
    if parts.len() == 0 {
        true
    } else {
        expr_shape_named(parts[0].1) && shapes_named(parts[0].2) && elifs_named(parts.drop_first())
    }
}

/// The expression of an assignment read from a named stream is named.
proof fn lemma_passign_named(s: Stream, p: int, ops: Seq<TokenType>)
    requires
        tokens_named(s.toks),
    ensures
        passign(s, p, ops) matches Ok((_, e, _)) ==> expr_shape_named(e),
{
    reveal(passign);
    if let Ok((op, p1)) = ptake(s, p, inline_gaps(), ops) {
        if let Ok(p2) = pbypass(s, p1, inline_gaps()) {
            lemma_pexpr_named(s, p2, false);
            lemma_pexpr_ok(s, p2, false);
        }
    }
}

/// A definition read from a named stream is named.
proof fn lemma_pdefine_named(s: Stream, p: int, kind: StatementType)
    requires
        tokens_named(s.toks),
    ensures
        pdefine(s, p, kind) matches Ok((sh, _)) ==> shape_named(sh),
{
    reveal(pdefine);
    reveal(pdefine_parts);
    if let Ok(p1) = pmove(s, p) {
        lemma_ptake_named(s, p1, inline_gaps(), seq![TokenType::Variable]);
        if let Ok((name, p2)) = ptake(s, p1, inline_gaps(), seq![TokenType::Variable]) {
            lemma_one_kind(TokenType::Variable, name.token_type);
            lemma_passign_named(s, p2, seq![TokenType::Assign]);
        }
    }
}

/// An assignment read from a named stream is named.
proof fn lemma_pdefine_variable_named(s: Stream, p: int)
    requires
        tokens_named(s.toks),
        0 <= p < s.toks.len(),
        s.toks[p].token_type == TokenType::Variable,
    ensures
        pdefine_variable(s, p) matches Ok((sh, _)) ==> shape_named(sh),
{
    reveal(pdefine_variable);
    if let Ok(p1) = pmove(s, p) {
        lemma_passign_named(s, p1, crate::parser::assignment_operators());
    }
}

/// A statement read from a named stream is named.
proof fn lemma_pstatement_named(s: Stream, p: int, strict: bool)
    requires
        tokens_named(s.toks),
    ensures
        pstatement(s, p, strict) matches Ok((Parsed::Node(sh), _)) ==> shape_named(sh),
    decreases s.toks.len() - p, 2int,
{
    reveal_with_fuel(pstatement, 1);
    reveal_with_fuel(pstatements, 1);
    reveal_with_fuel(pif, 1);
    reveal_with_fuel(pconditional, 1);
    reveal_with_fuel(pelse, 1);
    reveal_with_fuel(pelse_block, 1);
    reveal(pprint);
    if 0 <= p < s.toks.len() {
        let t = s.toks[p].token_type;
        match define_kind(t) {
            Some(kind) => lemma_pdefine_named(s, p, kind),
            None => if t == TokenType::Variable {
                lemma_pdefine_variable_named(s, p);
            } else if t == TokenType::If {
                lemma_pif_named(s, p);
            },
        }
    }
}

/// The statements read from a named stream are named.
proof fn lemma_pstatements_named(s: Stream, p: int, strict: bool)
    requires
        tokens_named(s.toks),
    ensures
        pstatements(s, p, strict) matches Ok((shs, _)) ==> shapes_named(shs),
    decreases s.toks.len() - p, 3int,
{
    reveal_with_fuel(pstatement, 1);
    reveal_with_fuel(pstatements, 1);
    reveal_with_fuel(pif, 1);
    reveal_with_fuel(pconditional, 1);
    reveal_with_fuel(pelse, 1);
    reveal_with_fuel(pelse_block, 1);
    lemma_pstatement_named(s, p, strict);
    match pstatement(s, p, strict) {
        Ok((Parsed::Discarded, q)) => if p < q <= s.toks.len() {
            lemma_pstatements_named(s, q, strict);
        },
        Ok((Parsed::Node(sh), q)) => if p < q <= s.toks.len() {
            lemma_pstatements_named(s, q, strict);
            if let Ok((rest, q2)) = pstatements(s, q, strict) {
                assert((seq![sh] + rest)[0] == sh);
                assert((seq![sh] + rest).drop_first() =~= rest);
            }
        },
        _ => {},
    }
}

/// An `if` statement read from a named stream is named.
proof fn lemma_pif_named(s: Stream, p: int)
    requires
        tokens_named(s.toks),
    ensures
        pif(s, p) matches Ok((sh, _)) ==> shape_named(sh),
    decreases s.toks.len() - p, 1int,
{
    reveal_with_fuel(pstatement, 1);
    reveal_with_fuel(pstatements, 1);
    reveal_with_fuel(pif, 1);
    reveal_with_fuel(pconditional, 1);
    reveal_with_fuel(pelse, 1);
    reveal_with_fuel(pelse_block, 1);
    lemma_pconditional_named(s, p);
    if let Ok(((tok, cond, body), q)) = pconditional(s, p) {
        if p < q <= s.toks.len() {
            lemma_pelse_named(s, q);
        }
    }
}

/// The condition and block of an `if` read from a named stream are named.
proof fn lemma_pconditional_named(s: Stream, p: int)
    requires
        tokens_named(s.toks),
    ensures
        pconditional(s, p) matches Ok(((_, cond, body), _)) ==> expr_shape_named(cond) && shapes_named(body),
    decreases s.toks.len() - p, 0int,
{
    reveal_with_fuel(pstatement, 1);
    reveal_with_fuel(pstatements, 1);
    reveal_with_fuel(pif, 1);
    reveal_with_fuel(pconditional, 1);
    reveal_with_fuel(pelse, 1);
    reveal_with_fuel(pelse_block, 1);
    if let Ok(p1) = pmove(s, p) {
        if let Ok(p2) = pbypass(s, p1, inline_gaps()) {
            lemma_pexpr_named(s, p2, false);
            lemma_pexpr_ok(s, p2, false);
            if let Ok((cond, p3)) = pexpr(s, p2, false) {
                if let Ok((_, p4)) = pexpect(s, p3, seq![TokenType::OpenBracket]) {
                    if let Ok((_, p5)) = ptake(s, p4, comment_gaps(), seq![TokenType::NewLine]) {
                        if p < p5 <= s.toks.len() {
                            lemma_pstatements_named(s, p5, false);
                        }
                    }
                }
            }
        }
    }
}

/// The block of an `else` read from a named stream is named.
proof fn lemma_pelse_block_named(s: Stream, p: int)
    requires
        tokens_named(s.toks),
    ensures
        pelse_block(s, p) matches Ok((body, _)) ==> shapes_named(body),
    decreases s.toks.len() - p, 0int,
{
    reveal_with_fuel(pstatement, 1);
    reveal_with_fuel(pstatements, 1);
    reveal_with_fuel(pif, 1);
    reveal_with_fuel(pconditional, 1);
    reveal_with_fuel(pelse, 1);
    reveal_with_fuel(pelse_block, 1);
    if let Ok((_, p1)) = ptake(s, p, comment_gaps(), seq![TokenType::OpenBracket]) {
        if p < p1 <= s.toks.len() {
            lemma_pstatements_named(s, p1, false);
        }
    }
}

/// The `else if` and `else` parts read from a named stream are named.
proof fn lemma_pelse_named(s: Stream, p: int)
    requires
        tokens_named(s.toks),
    ensures
        pelse(s, p) matches Ok((elifs, els, _)) ==> elifs_named(elifs) && match els {
            Some(b) => shapes_named(b),
            None => true,
        },
    decreases s.toks.len() - p, 0int,
{
    reveal_with_fuel(pstatement, 1);
    reveal_with_fuel(pstatements, 1);
    reveal_with_fuel(pif, 1);
    reveal_with_fuel(pconditional, 1);
    reveal_with_fuel(pelse, 1);
    reveal_with_fuel(pelse_block, 1);
    if let Ok(p1) = pbypass(s, p, all_gaps()) {
        if s.toks[p1].token_type == TokenType::Else {
            if let Ok(p2) = pmove(s, p1) {
                if let Ok(p3) = pbypass(s, p2, comment_gaps()) {
                    if p < p3 <= s.toks.len() {
                        if s.toks[p3].token_type == TokenType::If {
                            lemma_pconditional_named(s, p3);
                            if let Ok((part, q)) = pconditional(s, p3) {
                                if p < q <= s.toks.len() {
                                    lemma_pelse_named(s, q);
                                    if let Ok((elifs, els, q2)) = pelse(s, q) {
                                        assert((seq![part] + elifs)[0] == part);
                                        assert((seq![part] + elifs).drop_first() =~= elifs);
                                    }
                                }
                            }
                        } else {
                            lemma_pelse_block_named(s, p3);
                        }
                    }
                }
            }
        }
    }
}

/* From statements read to the tree built */

/// The tree built of a named expression is named.
proof fn lemma_tree_names(e: ExpressionShape, o: Option<OperationNode>)
    requires
        expr_shape_named(e),
        tree_is(o, e),
    ensures
        expr_names(tree_of(o)),
{
    lemma_parse_shape(0, e, Seq::empty());
    assert(expression_tokens(e) + Seq::<TokenView>::empty() =~= expression_tokens(e));
    lemma_parsed_expr_names(0, expression_tokens(e));
}

/// A statement node that holds a named statement is named.
proof fn lemma_statement_names(n: StatementNode, sh: StatementShape)
    requires
        statement_is(n, sh),
        shape_named(sh),
    ensures
        statement_names(n),
    decreases sh, 1int,
{
    match sh {
        StatementShape::Define(kind, name, op, e) => {
            if kind == StatementType::DefineBool {
                lemma_tree_names(e, n.define_bool_statement.unwrap().left);
            } else if kind == StatementType::DefineInt {
                lemma_tree_names(e, n.define_int_statement.unwrap().left);
            } else if kind == StatementType::DefineDouble {
                lemma_tree_names(e, n.define_double_statement.unwrap().left);
            } else if kind == StatementType::DefineChar {
                lemma_tree_names(e, n.define_char_statement.unwrap().left);
            } else if kind == StatementType::DefineString {
                lemma_tree_names(e, n.define_string_statement.unwrap().left);
            } else if kind == StatementType::DefineVar {
                lemma_tree_names(e, n.define_var_statement.unwrap().left);
            } else if kind == StatementType::DefineVariable {
                lemma_tree_names(e, n.define_variable_statement.unwrap().left);
            }
        },
        StatementShape::Print(_) => {},
        StatementShape::If(_, _, _, _, _) => {
            lemma_if_names(n.define_if_statement.unwrap(), sh);
        },
    }
}

/// An `if` node that holds a named `if` statement is named.
proof fn lemma_if_names(ifs: DefineIfStatementNode, sh: StatementShape)
    requires
        if_statement_is(ifs, sh),
        shape_named(sh),
    ensures
        if_names(ifs),
    decreases sh, 0int,
{
    match sh {
        StatementShape::If(tok, cond, body, elifs, els) => {
            let i = ifs.define_if_node.unwrap();
            lemma_tree_names(cond, i.condition);
            lemma_nodes_names(i.statements.statements@, body);
            lemma_block_names_from(i.statements, 0);
            lemma_else_if_nodes_names(ifs.define_if_else_nodes@, elifs);
            lemma_else_ifs_names_from(ifs, 0);
            match els {
                Some(b) => {
                    let en = ifs.define_else_node.unwrap();
                    lemma_nodes_names(en.statements.statements@, b);
                    lemma_block_names_from(en.statements, 0);
                },
                None => {},
            }
        },
        _ => {},
    }
}

/// Statement nodes that hold named statements are named, each of them.
proof fn lemma_nodes_names(ns: Seq<StatementNode>, shs: Seq<StatementShape>)
    requires
        statements_are(ns, shs),
        shapes_named(shs),
    ensures
        forall|k: int| 0 <= k < ns.len() ==> statement_names(#[trigger] ns[k]),
    decreases shs, 2int,
{
    if shs.len() > 0 {
        lemma_statement_names(ns[0], shs[0]);
        lemma_nodes_names(ns.drop_first(), shs.drop_first());
        assert forall|k: int| 0 <= k < ns.len() implies statement_names(#[trigger] ns[k]) by {
            if k > 0 {
                assert(ns[k] == ns.drop_first()[k - 1]);
            }
        }
    }
}

/// `else if` nodes that hold named parts are named, each of them.
proof fn lemma_else_if_nodes_names(
    ns: Seq<DefineIfElseNode>,
    parts: Seq<(TokenView, ExpressionShape, Seq<StatementShape>)>,
)
    requires
        else_ifs_are(ns, parts),
        elifs_named(parts),
    ensures
        forall|k: int|
            0 <= k < ns.len() ==> branch_names(tree_of((#[trigger] ns[k]).condition), ns[k].statements),
    decreases parts, 2int,
{
    if parts.len() > 0 {
        lemma_tree_names(parts[0].1, ns[0].condition);
        lemma_nodes_names(ns[0].statements.statements@, parts[0].2);
        lemma_block_names_from(ns[0].statements, 0);
        lemma_else_if_nodes_names(ns.drop_first(), parts.drop_first());
        assert forall|k: int| 0 <= k < ns.len() implies branch_names(
            tree_of((#[trigger] ns[k]).condition),
            ns[k].statements,
        ) by {
            if k > 0 {
                assert(ns[k] == ns.drop_first()[k - 1]);
            }
        }
    }
}

/// A block whose statements are named, each of them, is named.
proof fn lemma_block_names_from(b: StatementsNode, i: int)
    requires
        forall|k: int| 0 <= k < b.statements@.len() ==> statement_names(#[trigger] b.statements@[k]),
    ensures
        block_names(b, i),
    decreases b.statements@.len() - i,
{
    if 0 <= i < b.statements@.len() {
        assert(statement_names(b.statements@[i]));
        lemma_block_names_from(b, i + 1);
    }
}

/// The `else if` parts from the `j`-th on, each of them named, are named.
proof fn lemma_else_ifs_names_from(ifs: DefineIfStatementNode, j: int)
    requires
        forall|k: int|
            0 <= k < ifs.define_if_else_nodes@.len() ==> branch_names(
                tree_of((#[trigger] ifs.define_if_else_nodes@[k]).condition),
                ifs.define_if_else_nodes@[k].statements,
            ),
    ensures
        else_ifs_names(ifs, j),
    decreases ifs.define_if_else_nodes@.len() - j,
{
    if 0 <= j < ifs.define_if_else_nodes@.len() {
        assert(branch_names(
            tree_of(ifs.define_if_else_nodes@[j].condition),
            ifs.define_if_else_nodes@[j].statements,
        ));
        lemma_else_ifs_names_from(ifs, j + 1);
    }
}

/// Whatever the generator writes of a program that the parser read from
/// tokens whose variables have names without colons, the virtual machine
/// reads back: each line after the header decodes as an instruction,
/// numbered by its place in the file, while the number of the last line is
/// below the largest `u128`.
pub proof fn lemma_parsed_program_reads_back(
    s: Stream,
    p: int,
    tree: StatementsNode,
    counter: int,
    stack: Seq<EnvironmentView>,
)
    requires
        tokens_named(s.toks),
        pstatements(s, p, true) matches Ok((shs, _)) && statements_are(tree.statements@, shs),
        block_ready(tree, 0),
    ensures
        ({
            let g = gen_program(GenState { lines: Seq::empty(), counter: counter, line: 0, stack: stack }, tree).0;
            g.line < u128::MAX ==> decodes(g)
        }),
{
    lemma_pstatements_named(s, p, true);
    let shs = pstatements(s, p, true)->Ok_0.0;
    lemma_nodes_names(tree.statements@, shs);
    lemma_block_names_from(tree, 0);
    lemma_program_reads_back(tree, counter, stack);
}

/* Names of lexed sources */

/// The text of a character whose code starts with a word byte holds no
/// colon.
proof fn lemma_word_text(c: Character)
    requires
        c.wf(),
        is_word_byte(c.lead()),
    ensures
        colon_free(c.text()),
{
    let b = c.lead();
    let bytes = seq![b];
    assert(code_bytes(c.code()) =~= bytes);
    assert(pop_first_scalar(bytes) =~= Seq::<u8>::empty());
    assert(valid_utf8(Seq::<u8>::empty()));
    assert(decode_utf8(Seq::<u8>::empty()) =~= Seq::<char>::empty());
    assert(b & 0x7f == b) by (bit_vector)
        requires
            b < 128,
    ;
    let v = decode_first_scalar(bytes);
    assert(v == b as u32);
    assert(c.text() =~= seq![v as char]);
    assert(v as char != ':');
}

/// The `k`-th character of the stream is a word character.
pub open spec fn word_at(cs: Seq<Character>, k: int) -> bool {
    0 <= k < cs.len() && is_word_byte(lead_at(cs, k))
}

/// A run of word characters holds no colon.
proof fn lemma_word_texts(cs: Seq<Character>, a: int, b: int)
    requires
        forall|k: int| 0 <= k < cs.len() ==> (#[trigger] cs[k]).wf(),
        forall|k: int| a <= k < b ==> #[trigger] word_at(cs, k),
    ensures
        colon_free(texts(cs, a, b)),
    decreases b - a,
{
    if a < b {
        assert forall|k: int| a <= k < b - 1 implies #[trigger] word_at(cs, k) by {
            assert(a <= k < b);
        }
        lemma_word_texts(cs, a, b - 1);
        assert(word_at(cs, b - 1));
        lemma_word_text(cs[b - 1]);
        let x = texts(cs, a, b - 1);
        let y = text_at(cs, b - 1);
        assert forall|i: int| 0 <= i < (x + y).len() implies (x + y)[i] != ':' by {
            if i < x.len() {
                assert((x + y)[i] == x[i]);
            } else {
                assert((x + y)[i] == y[i - x.len()]);
            }
        }
    }
}

/// The characters a run of word characters spans are word characters of
/// the stream.
proof fn lemma_word_end_words(cs: Seq<Character>, k: int)
    requires
        0 <= k,
    ensures
        k <= word_end(cs, k),
        forall|j: int| k <= j < word_end(cs, k) ==> #[trigger] word_at(cs, j),
    decreases cs.len() - k,
{
    if 0 <= k < cs.len() && is_word_byte(lead_at(cs, k)) {
        lemma_word_end_words(cs, k + 1);
        assert(word_end(cs, k) == word_end(cs, k + 1));
        assert forall|j: int| k <= j < word_end(cs, k) implies #[trigger] word_at(cs, j) by {
            if j > k {
                assert(k + 1 <= j < word_end(cs, k + 1));
            }
        }
    } else {
        assert(word_end(cs, k) == k);
    }
}

/// A variable token that the lexer reads has a name without colons.
proof fn lemma_lex_token_named(cs: Seq<Character>, i: int, line: int, pos: int, mode: Mode)
    requires
        forall|k: int| 0 <= k < cs.len() ==> (#[trigger] cs[k]).wf(),
    ensures
        lex_token(cs, i, line, pos, mode).result matches Ok(t) ==> token_named(t),
    decreases cs.len() - i,
{
    let b = lead_at(cs, i);
    if b != 0 && (is_alpha_byte(b) || b == 95) {
        lemma_word_end_words(cs, i + 1);
        let e = word_end(cs, i + 1);
        assert forall|k: int| i <= k < e implies #[trigger] word_at(cs, k) by {
            if k > i {
                assert(word_at(cs, k));
            }
        }
        lemma_word_texts(cs, i, e);
    } else if b == 13 && 0 <= i < cs.len() {
        lemma_lex_token_named(cs, i + 1, line, pos, mode);
    }
}

/// Every variable token that the lexer reads has a name without colons.
pub proof fn lemma_lex_all_named(cs: Seq<Character>, i: int, line: int, pos: int, mode: Mode)
    requires
        forall|k: int| 0 <= k < cs.len() ==> (#[trigger] cs[k]).wf(),
    ensures
        tokens_named(lex_all(cs, i, line, pos, mode).0),
    decreases cs.len() + 2 - i,
{
    let o = lex_token(cs, i, line, pos, mode);
    lemma_lex_token_named(cs, i, line, pos, mode);
    match o.result {
        Err(_) => {},
        Ok(t) => {
            lemma_named_one(t);
            if !(t.token_type == TokenType::Eof || i < 0 || o.index <= i || o.index > cs.len() + 1) {
                lemma_lex_all_named(cs, o.index, o.line, o.pos, mode);
                lemma_named_join(seq![t], lex_all(cs, o.index, o.line, o.pos, mode).0);
            }
        },
    }
}

/* The whole tool chain */

/// Whatever the generator writes of a program that the parser read from the
/// tokens of a source, the virtual machine reads back: each line after the
/// header decodes as an instruction, numbered by its place in the file,
/// while the number of the last line is below the largest `u128`.
pub proof fn lemma_source_program_reads_back(
    cs: Seq<Character>,
    mode: Mode,
    tree: StatementsNode,
    counter: int,
    stack: Seq<EnvironmentView>,
)
    requires
        forall|k: int| 0 <= k < cs.len() ==> (#[trigger] cs[k]).wf(),
        ({
            let all = lex_all(cs, 0, 1, 1, mode);
            pstatements(Stream { toks: all.0, err: all.1, mode: mode }, 0, true) matches Ok((shs, _))
                && statements_are(tree.statements@, shs)
        }),
        block_ready(tree, 0),
    ensures
        ({
            let g = gen_program(GenState { lines: Seq::empty(), counter: counter, line: 0, stack: stack }, tree).0;
            g.line < u128::MAX ==> decodes(g)
        }),
{
    let all = lex_all(cs, 0, 1, 1, mode);
    lemma_lex_all_named(cs, 0, 1, 1, mode);
    lemma_parsed_program_reads_back(Stream { toks: all.0, err: all.1, mode: mode }, 0, tree, counter, stack);
}

} // verus!
