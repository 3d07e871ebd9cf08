//! What holds of every parse: the shape of the emitted tree, the fate of
//! every token, and the behaviour at the end of input.

use crate::event::{
    depth, interior, is_node, leaves, node_kinds, open_nodes, token_kinds, well_nested, Event,
};
use crate::grammar::{
    begins_let_stmt, expr_events, lemma_let_indices_in_order, lemma_token_and_ws_splits,
    lemma_whitespace_end_is_first_other, lemma_whitespace_end_skip, let_eq_index,
    let_expr_index, let_stmt_children, let_stmt_events, let_var_events, let_var_index,
    parse_accepts, parse_events, parse_rest, token_and_ws_kinds, token_and_ws_rest,
    whitespace_end,
};
use crate::nesting::{
    lemma_leaves_well_nested, lemma_node_kinds_add, lemma_node_kinds_leaves,
    lemma_node_well_nested, lemma_token_kinds_add, lemma_token_kinds_leaves,
    lemma_well_nested_add,
};
use crate::source::{advance_by, at_end, current_kind};
use crate::syntax_kind::SyntaxKind;
use vstd::prelude::*;

verus! {

/// The variable of a `let` statement is one node of kind `LET_VAR` that
/// holds one leaf.
pub proof fn lemma_let_var_is_node(tokens: Seq<SyntaxKind>)
    ensures
        is_node(let_var_events(tokens), SyntaxKind::LET_VAR),
        node_kinds(let_var_events(tokens)) == seq![SyntaxKind::LET_VAR],
        token_kinds(let_var_events(tokens)) == seq![tokens[let_var_index(tokens)]],
{
    let variable = let_var_events(tokens);
    let name = seq![tokens[let_var_index(tokens)]];
    assert(interior(variable) =~= leaves(name));
    lemma_leaves_well_nested(name);
    assert(variable.drop_last().drop_last().drop_last() =~= Seq::<Event>::empty());
    assert(node_kinds(variable) =~= seq![SyntaxKind::LET_VAR]) by {
        reveal_with_fuel(node_kinds, 4);
    }
    assert(token_kinds(variable) =~= name) by {
        reveal_with_fuel(token_kinds, 4);
    }
}

/// The events of a `let` statement form one node of kind `LET_STMT` around
/// its children.
pub proof fn lemma_let_stmt_is_node(tokens: Seq<SyntaxKind>)
    ensures
        is_node(let_stmt_events(tokens), SyntaxKind::LET_STMT),
        interior(let_stmt_events(tokens)) == let_stmt_children(tokens),
{
    let var = let_var_index(tokens);
    let expr = let_expr_index(tokens);
    let head = leaves(tokens.take(var));
    let variable = let_var_events(tokens);
    let middle = leaves(tokens.subrange(var + 1, expr));
    let value = expr_events(tokens.skip(expr));
    assert(interior(let_stmt_events(tokens)) =~= let_stmt_children(tokens));
    lemma_leaves_well_nested(tokens.take(var));
    lemma_let_var_is_node(tokens);
    lemma_node_well_nested(variable, SyntaxKind::LET_VAR);
    lemma_leaves_well_nested(tokens.subrange(var + 1, expr));
    lemma_leaves_well_nested(token_and_ws_kinds(tokens.skip(expr)));
    lemma_well_nested_add(head, variable);
    lemma_well_nested_add(head + variable, middle);
    lemma_well_nested_add(head + variable + middle, value);
}

/// The events of one parse are well nested, whatever the tokens. They form
/// one node of kind `ROOT`: the first event starts the root, the last
/// finishes it, and between the two every start has its finish and every
/// finish its start.
pub proof fn lemma_parse_is_root_node(tokens: Seq<SyntaxKind>)
    ensures
        is_node(parse_events(tokens), SyntaxKind::ROOT),
        well_nested(parse_events(tokens)),
{
    let events = parse_events(tokens);
    if current_kind(tokens) == SyntaxKind::LET_KW {
        lemma_let_stmt_is_node(tokens);
        lemma_node_well_nested(let_stmt_events(tokens), SyntaxKind::LET_STMT);
        assert(interior(events) =~= let_stmt_events(tokens));
    } else {
        assert(interior(events) =~= leaves(Seq::<SyntaxKind>::empty()));
        lemma_leaves_well_nested(Seq::<SyntaxKind>::empty());
    }
    lemma_node_well_nested(events, SyntaxKind::ROOT);
}

/// Where the first token is `let`, the dispatch is single: the root holds
/// one child and no more, a `LET_STMT` node, and the one node inside that
/// child is a `LET_VAR`.
pub proof fn lemma_let_is_sole_child(tokens: Seq<SyntaxKind>)
    requires
        current_kind(tokens) == SyntaxKind::LET_KW,
    ensures
        is_node(parse_events(tokens), SyntaxKind::ROOT),
        is_node(interior(parse_events(tokens)), SyntaxKind::LET_STMT),
        node_kinds(interior(interior(parse_events(tokens)))) == seq![SyntaxKind::LET_VAR],
{
    let var = let_var_index(tokens);
    let expr = let_expr_index(tokens);
    let head = leaves(tokens.take(var));
    let variable = let_var_events(tokens);
    let middle = leaves(tokens.subrange(var + 1, expr));
    let value = expr_events(tokens.skip(expr));
    lemma_parse_is_root_node(tokens);
    lemma_let_stmt_is_node(tokens);
    assert(interior(parse_events(tokens)) =~= let_stmt_events(tokens));
    lemma_node_kinds_leaves(tokens.take(var));
    lemma_let_var_is_node(tokens);
    lemma_node_kinds_leaves(tokens.subrange(var + 1, expr));
    lemma_node_kinds_leaves(token_and_ws_kinds(tokens.skip(expr)));
    lemma_node_kinds_add(head, variable);
    lemma_node_kinds_add(head + variable, middle);
    lemma_node_kinds_add(head + variable + middle, value);
    assert(node_kinds(let_stmt_children(tokens)) =~= seq![SyntaxKind::LET_VAR]);
}

/// A diagnostic is an annotation: wherever a sink receives one, no node
/// opens and none closes.
pub proof fn lemma_error_keeps_nesting(events: Seq<Event>, message: Seq<char>)
    ensures
        depth(events.push(Event::Error(message))) == depth(events),
        open_nodes(events.push(Event::Error(message))) == open_nodes(events),
{
    assert(events.push(Event::Error(message)).drop_last() =~= events);
}

/// No rule reports an error yet: the events of one parse start nodes, hold
/// leaves and finish nodes, and hold no diagnostic.
pub proof fn lemma_parse_reports_no_error(tokens: Seq<SyntaxKind>)
    ensures
        forall|i: int|
            0 <= i < parse_events(tokens).len() ==> !(#[trigger] parse_events(tokens)[i]
                is Error),
{
}

/// Where the first token is not `let`, or there is no token at all, the
/// parse is inert: the root is empty, without child or leaf, and every token
/// is still ahead of the cursor.
pub proof fn lemma_unmatched_is_inert(tokens: Seq<SyntaxKind>)
    requires
        current_kind(tokens) != SyntaxKind::LET_KW,
    ensures
        parse_accepts(tokens),
        parse_events(tokens) == seq![
            Event::StartNode(SyntaxKind::ROOT),
            Event::FinishNode,
        ],
        interior(parse_events(tokens)) == Seq::<Event>::empty(),
        token_kinds(parse_events(tokens)) == Seq::<SyntaxKind>::empty(),
        parse_rest(tokens) == tokens,
{
    reveal_with_fuel(token_kinds, 3);
    assert(interior(parse_events(tokens)) =~= Seq::<Event>::empty());
}

/// The leaves of a `let` statement, in the order of emission.
proof fn lemma_let_stmt_leaves(tokens: Seq<SyntaxKind>)
    requires
        begins_let_stmt(tokens),
    ensures
        token_kinds(let_stmt_events(tokens)) == tokens.take(let_expr_index(tokens))
            + token_and_ws_kinds(tokens.skip(let_expr_index(tokens))),
{
    let var = let_var_index(tokens);
    let expr = let_expr_index(tokens);
    let open_stmt = seq![Event::StartNode(SyntaxKind::LET_STMT)];
    let head = leaves(tokens.take(var));
    let variable = let_var_events(tokens);
    let middle = leaves(tokens.subrange(var + 1, expr));
    let value = expr_events(tokens.skip(expr));
    let close = seq![Event::FinishNode];
    lemma_let_indices_in_order(tokens);
    assert(token_kinds(open_stmt) =~= Seq::<SyntaxKind>::empty()) by {
        reveal_with_fuel(token_kinds, 2);
    }
    assert(token_kinds(close) =~= Seq::<SyntaxKind>::empty()) by {
        reveal_with_fuel(token_kinds, 2);
    }
    lemma_token_kinds_leaves(tokens.take(var));
    lemma_let_var_is_node(tokens);
    lemma_token_kinds_leaves(tokens.subrange(var + 1, expr));
    lemma_token_kinds_leaves(token_and_ws_kinds(tokens.skip(expr)));
    lemma_token_kinds_add(head, variable);
    lemma_token_kinds_add(head + variable, middle);
    lemma_token_kinds_add(head + variable + middle, value);
    lemma_token_kinds_add(open_stmt, let_stmt_children(tokens));
    lemma_token_kinds_add(open_stmt + let_stmt_children(tokens), close);
    assert(token_kinds(let_stmt_events(tokens)) =~= tokens.take(expr) + token_and_ws_kinds(
        tokens.skip(expr),
    ));
}

/// The leaves of one parse.
proof fn lemma_parse_leaves(tokens: Seq<SyntaxKind>)
    ensures
        token_kinds(parse_events(tokens)) == if current_kind(tokens) == SyntaxKind::LET_KW {
            token_kinds(let_stmt_events(tokens))
        } else {
            Seq::<SyntaxKind>::empty()
        },
{
    let open_root = seq![Event::StartNode(SyntaxKind::ROOT)];
    let close = seq![Event::FinishNode];
    assert(token_kinds(open_root) =~= Seq::<SyntaxKind>::empty()) by {
        reveal_with_fuel(token_kinds, 2);
    }
    assert(token_kinds(close) =~= Seq::<SyntaxKind>::empty()) by {
        reveal_with_fuel(token_kinds, 2);
    }
    if current_kind(tokens) == SyntaxKind::LET_KW {
        lemma_token_kinds_add(open_root, let_stmt_events(tokens));
        lemma_token_kinds_add(open_root + let_stmt_events(tokens), close);
        assert(token_kinds(parse_events(tokens)) =~= token_kinds(let_stmt_events(tokens)));
    } else {
        lemma_unmatched_is_inert(tokens);
    }
}

/// A parse is lossless. Its leaves, in the order of emission, followed by
/// the tokens still ahead of the cursor, are the tokens that were ahead of
/// it before: none is dropped, none comes twice, whitespace included. So
/// where the parse has consumed all, its leaves are the whole input.
pub proof fn lemma_parse_lossless(tokens: Seq<SyntaxKind>)
    requires
        parse_accepts(tokens),
    ensures
        token_kinds(parse_events(tokens)) + parse_rest(tokens) == tokens,
        parse_rest(tokens).len() == 0 ==> token_kinds(parse_events(tokens)) == tokens,
{
    lemma_parse_leaves(tokens);
    if current_kind(tokens) == SyntaxKind::LET_KW {
        let expr = let_expr_index(tokens);
        let ahead = tokens.skip(expr);
        lemma_let_stmt_leaves(tokens);
        lemma_let_indices_in_order(tokens);
        lemma_token_and_ws_splits(ahead);
        assert(tokens.take(expr) + token_and_ws_kinds(ahead) + token_and_ws_rest(ahead)
            =~= tokens.take(expr) + (token_and_ws_kinds(ahead) + token_and_ws_rest(ahead)));
        assert(tokens.take(expr) + ahead =~= tokens);
    }
    assert(token_kinds(parse_events(tokens)) + parse_rest(tokens) =~= tokens);
    if parse_rest(tokens).len() == 0 {
        assert(token_kinds(parse_events(tokens)) + parse_rest(tokens) =~= token_kinds(
            parse_events(tokens),
        ));
    }
}

/// Every leaf of a parse is a token of the input: the end-of-input sentinel
/// is never handed to the sink.
pub proof fn lemma_parse_emits_no_sentinel(tokens: Seq<SyntaxKind>)
    requires
        parse_accepts(tokens),
    ensures
        forall|i: int|
            0 <= i < token_kinds(parse_events(tokens)).len() ==> #[trigger] token_kinds(
                parse_events(tokens),
            )[i] != SyntaxKind::EOF,
{
    lemma_parse_leaves(tokens);
    if current_kind(tokens) == SyntaxKind::LET_KW {
        let var = let_var_index(tokens);
        let eq = let_eq_index(tokens);
        let expr = let_expr_index(tokens);
        let ahead = tokens.skip(expr);
        let kinds = token_kinds(parse_events(tokens));
        lemma_let_stmt_leaves(tokens);
        lemma_let_indices_in_order(tokens);
        lemma_whitespace_end_is_first_other(tokens, 1);
        lemma_whitespace_end_is_first_other(tokens, var + 1);
        lemma_whitespace_end_is_first_other(tokens, eq + 1);
        lemma_token_and_ws_splits(ahead);
        assert forall|i: int| 0 <= i < kinds.len() implies #[trigger] kinds[i]
            != SyntaxKind::EOF by {
            if i < expr {
                assert(kinds[i] == tokens[i]);
            } else {
                assert(kinds[i] == token_and_ws_kinds(ahead)[i - expr]);
            }
        }
    }
}

/// The cursor only moves forward: what a parse leaves ahead of it is a tail
/// of what was ahead of it before.
pub proof fn lemma_parse_rest_is_tail(tokens: Seq<SyntaxKind>)
    requires
        parse_accepts(tokens),
    ensures
        parse_rest(tokens).len() <= tokens.len(),
        parse_rest(tokens) == tokens.skip(tokens.len() - parse_rest(tokens).len()),
{
    if current_kind(tokens) == SyntaxKind::LET_KW {
        let expr = let_expr_index(tokens);
        let ahead = tokens.skip(expr);
        lemma_let_indices_in_order(tokens);
        if at_end(ahead) {
            assert(parse_rest(tokens) =~= tokens.skip(expr));
        } else {
            let end = whitespace_end(tokens, expr + 1);
            lemma_whitespace_end_is_first_other(tokens, expr + 1);
            lemma_whitespace_end_skip(tokens, expr, 1);
            assert(ahead.skip(end - expr) =~= tokens.skip(end));
        }
    } else {
        assert(tokens.skip(0) =~= tokens);
    }
}

/// The end of input is safe. Once the cursor has passed every token, the
/// source reports the sentinel, and goes on to do so however often the
/// cursor is advanced after that.
pub proof fn lemma_exhausted_source_reports_sentinel(tokens: Seq<SyntaxKind>, times: nat)
    requires
        times >= tokens.len(),
    ensures
        advance_by(tokens, times) == Seq::<SyntaxKind>::empty(),
        current_kind(advance_by(tokens, times)) == SyntaxKind::EOF,
    decreases times,
{
    lemma_advance_by_skips(tokens, times);
    if times > tokens.len() {
        lemma_exhausted_source_reports_sentinel(tokens, (times - 1) as nat);
    }
}

/// Before the end of input, advancing `times` times passes as many tokens;
/// at the end nothing is left.
proof fn lemma_advance_by_skips(tokens: Seq<SyntaxKind>, times: nat)
    ensures
        times <= tokens.len() ==> advance_by(tokens, times) == tokens.skip(times as int),
    decreases times,
{
    if times == 0 {
        assert(tokens.skip(0) =~= tokens);
    } else if times <= tokens.len() {
        lemma_advance_by_skips(tokens, (times - 1) as nat);
        assert(tokens.skip(times - 1).skip(1) =~= tokens.skip(times as int));
    }
}

/// At the end of input the parser neither fails nor goes on. Where the
/// source reports the sentinel, no rule consumes a token or emits a leaf:
/// there is no whitespace to skip and no token to take, and a parse is
/// accepted, emits an empty root and leaves the source as it was.
pub proof fn lemma_parse_at_end_of_input(tokens: Seq<SyntaxKind>)
    requires
        at_end(tokens),
    ensures
        whitespace_end(tokens, 0) == 0,
        token_and_ws_kinds(tokens) == Seq::<SyntaxKind>::empty(),
        token_and_ws_rest(tokens) == tokens,
        parse_accepts(tokens),
        parse_events(tokens) == seq![
            Event::StartNode(SyntaxKind::ROOT),
            Event::FinishNode,
        ],
        parse_rest(tokens) == tokens,
{
}

} // verus!
