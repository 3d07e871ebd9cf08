//! The grammar rules: procedures that read a token source and drive a tree
//! sink. They keep no state of their own.

use crate::event::{leaves, open_nodes, Event};
use crate::grammar::{
    begins_let_stmt, expr_events, expr_rest, lemma_let_indices_in_order,
    lemma_whitespace_end_is_first_other, lemma_whitespace_end_skip, let_eq_index,
    let_expr_index, let_stmt_events, let_stmt_rest, let_var_index, parse_accepts, parse_events,
    parse_rest, token_and_ws_events, token_and_ws_kinds, token_and_ws_rest, whitespace_end,
};
use crate::laws::lemma_let_stmt_is_node;
use crate::nesting::{
    lemma_node_well_nested, lemma_open_nodes_add, lemma_open_nodes_leaves,
    lemma_open_nodes_push,
};
use crate::sink::TreeSink;
use crate::source::{at_end, current_kind, TokenSource};
use crate::syntax_kind::SyntaxKind;
use vstd::prelude::*;

verus! {

/// Parses the tokens ahead of the cursor into one tree and hands it to the
/// sink, event by event.
///
/// The root node is opened and closed whatever the tokens are. Where the
/// first token is `let`, a `let` statement is parsed inside the root and the
/// cursor ends up behind it. Any other first token, and the end of input, is
/// passed over in silence: the root stays empty, no error is reported and
/// the cursor stays put.
///
/// Every leaf is a token of the input, handed on once and in order. Each
/// rule reads the current kind before it consumes, and where the source
/// reports the end of input nothing is consumed: a statement that ends
/// behind its `=` is closed without an expression.
///
/// Tokens that open with `let` have to go on as a `let` statement does, up
/// to its `=`. No error is reported for tokens that do not: they are the
/// caller's to keep away, and `accepts` tells them apart.
pub fn parse(source: &mut impl TokenSource, sink: &mut impl TreeSink)
    requires
        parse_accepts(old(source).remaining()),
    ensures
        final(sink).events() == old(sink).events() + parse_events(old(source).remaining()),
        final(source).remaining() == parse_rest(old(source).remaining()),
{
    let ghost tokens = source.remaining();
    let ghost before = sink.events();
    let ghost start_root = Event::StartNode(SyntaxKind::ROOT);
    sink.start_node(SyntaxKind::ROOT);
    match source.current() {
        SyntaxKind::LET_KW => parse_let_stmt(source, sink),
        _ => {},
    }
    assert(open_nodes(sink.events()) > 0) by {
        lemma_open_nodes_push(before, start_root);
        if current_kind(tokens) == SyntaxKind::LET_KW {
            lemma_let_stmt_is_node(tokens);
            lemma_node_well_nested(let_stmt_events(tokens), SyntaxKind::LET_STMT);
            lemma_open_nodes_add(before.push(start_root), let_stmt_events(tokens));
        }
    }
    sink.finish_node();
    assert(sink.events() =~= before + parse_events(tokens));
}

/// Parses a `let` statement: the keyword, the variable in a node of its own,
/// `=` and the expression, each with the whitespace behind it.
///
/// The caller has seen `let` at the cursor. The token behind the keyword and
/// its whitespace is taken for the variable whatever its kind. Whitespace
/// between the variable and `=` belongs to the statement, not to the
/// variable.
pub fn parse_let_stmt(source: &mut impl TokenSource, sink: &mut impl TreeSink)
    requires
        begins_let_stmt(old(source).remaining()),
    ensures
        final(sink).events() == old(sink).events() + let_stmt_events(old(source).remaining()),
        final(source).remaining() == let_stmt_rest(old(source).remaining()),
{
    let ghost tokens = source.remaining();
    let ghost before = sink.events();
    let ghost var = let_var_index(tokens);
    let ghost eq = let_eq_index(tokens);
    let ghost expr = let_expr_index(tokens);
    let ghost start_stmt = Event::StartNode(SyntaxKind::LET_STMT);
    let ghost start_var = Event::StartNode(SyntaxKind::LET_VAR);
    let ghost name = Event::Token(tokens[var]);
    let ghost head = leaves(tokens.take(var));
    let ghost gap = leaves(tokens.subrange(var + 1, eq));
    let ghost assign = leaves(tokens.subrange(eq, expr));
    let ghost value = expr_events(tokens.skip(expr));
    proof {
        lemma_let_indices_in_order(tokens);
    }

    sink.start_node(SyntaxKind::LET_STMT);

    assert(current_kind(source.remaining()) == SyntaxKind::LET_KW);
    bump_token_and_ws(source, sink);
    let ghost keyword = before.push(start_stmt) + head;
    assert(sink.events() == keyword);
    assert(source.remaining() == tokens.skip(var));

    sink.start_node(SyntaxKind::LET_VAR);
    bump_token(source, sink);
    assert(sink.events() == keyword.push(start_var).push(name));
    assert(open_nodes(sink.events()) > 0) by {
        lemma_open_nodes_push(keyword, start_var);
        lemma_open_nodes_push(keyword.push(start_var), name);
    }
    sink.finish_node();
    let ghost variable = keyword.push(start_var).push(name).push(Event::FinishNode);
    assert(sink.events() == variable);
    assert(source.remaining() == tokens.skip(var + 1)) by {
        assert(tokens.skip(var).skip(1) =~= tokens.skip(var + 1));
    }

    skip_ws(source, sink);
    assert(sink.events() == variable + gap && source.remaining() == tokens.skip(eq)) by {
        lemma_whitespace_end_skip(tokens, var + 1, 0);
        assert(tokens.skip(var + 1).skip(eq - var - 1) =~= tokens.skip(eq));
        assert(tokens.skip(var + 1).take(eq - var - 1) =~= tokens.subrange(var + 1, eq));
    }

    assert(current_kind(source.remaining()) == SyntaxKind::EQ);
    bump_token_and_ws(source, sink);
    assert(sink.events() == variable + gap + assign && source.remaining() == tokens.skip(expr))
        by {
        lemma_whitespace_end_skip(tokens, eq, 1);
        assert(tokens.skip(eq).skip(expr - eq) =~= tokens.skip(expr));
        assert(tokens.skip(eq).take(expr - eq) =~= tokens.subrange(eq, expr));
    }

    parse_expr(source, sink);
    assert(sink.events() == variable + gap + assign + value);
    assert(open_nodes(sink.events()) > 0) by {
        lemma_open_nodes_push(before, start_stmt);
        lemma_open_nodes_leaves(before.push(start_stmt), tokens.take(var));
        lemma_open_nodes_push(keyword, start_var);
        lemma_open_nodes_push(keyword.push(start_var), name);
        lemma_open_nodes_push(keyword.push(start_var).push(name), Event::FinishNode);
        lemma_open_nodes_leaves(variable, tokens.subrange(var + 1, eq));
        lemma_open_nodes_leaves(variable + gap, tokens.subrange(eq, expr));
        lemma_open_nodes_leaves(
            variable + gap + assign,
            token_and_ws_kinds(tokens.skip(expr)),
        );
    }
    sink.finish_node();
    assert(sink.events() == before + let_stmt_events(tokens)) by {
        assert(gap + assign =~= leaves(tokens.subrange(var + 1, expr)));
        lemma_let_stmt_joined(before, start_stmt, head, start_var, name, gap, assign, value);
    }
}

/// The events of a `let` statement, joined as the rule emits them, are the
/// events joined as the grammar lists them.
proof fn lemma_let_stmt_joined(
    before: Seq<Event>,
    start_stmt: Event,
    head: Seq<Event>,
    start_var: Event,
    name: Event,
    gap: Seq<Event>,
    assign: Seq<Event>,
    value: Seq<Event>,
)
    ensures
        ((before.push(start_stmt) + head).push(start_var).push(name).push(Event::FinishNode)
            + gap + assign + value).push(Event::FinishNode) == before + (seq![start_stmt] + (head
            + seq![start_var, name, Event::FinishNode] + (gap + assign) + value) + seq![
            Event::FinishNode,
        ]),
{
    let emitted = ((before.push(start_stmt) + head).push(start_var).push(name).push(
        Event::FinishNode,
    ) + gap + assign + value).push(Event::FinishNode);
    let children = head + seq![start_var, name, Event::FinishNode] + (gap + assign) + value;
    let listed = before + (seq![start_stmt] + children + seq![Event::FinishNode]);
    assert(emitted =~= listed);
}

/// Parses an expression: for now one token and the whitespace behind it,
/// with no structure. At the end of input there is no expression: nothing is
/// consumed and the sink receives nothing.
pub fn parse_expr(source: &mut impl TokenSource, sink: &mut impl TreeSink)
    ensures
        final(sink).events() == old(sink).events() + expr_events(old(source).remaining()),
        final(source).remaining() == expr_rest(old(source).remaining()),
{
    bump_token_and_ws(source, sink);
}

/// Consumes the token at the cursor and the whitespace behind it, and hands
/// all of it to the sink as leaves of whichever node is open. At the end of
/// input it consumes nothing and hands nothing on.
pub fn bump_token_and_ws(source: &mut impl TokenSource, sink: &mut impl TreeSink)
    ensures
        final(sink).events() == old(sink).events() + token_and_ws_events(
            old(source).remaining(),
        ),
        final(source).remaining() == token_and_ws_rest(old(source).remaining()),
{
    let ghost tokens = source.remaining();
    let ghost before = sink.events();
    bump_token(source, sink);
    skip_ws(source, sink);
    proof {
        if !at_end(tokens) {
            let end = whitespace_end(tokens, 1);
            lemma_whitespace_end_skip(tokens, 1, 0);
            lemma_whitespace_end_is_first_other(tokens, 1);
            assert(tokens.skip(1).skip(end - 1) =~= tokens.skip(end));
            assert(before.push(Event::Token(tokens[0])) + leaves(tokens.skip(1).take(end - 1))
                =~= before + leaves(tokens.take(end)));
        } else {
            assert(whitespace_end(tokens, 0) == 0);
            assert(tokens.skip(0) =~= tokens);
            assert(before + leaves(tokens.take(0)) =~= before + leaves(
                Seq::<SyntaxKind>::empty(),
            ));
        }
    }
}

/// Consumes the whitespace at the cursor, be it none, and hands each token
/// of it to the sink as a leaf of whichever node is open. The cursor ends up
/// at the first token that is not whitespace, or at the end of input.
pub fn skip_ws(source: &mut impl TokenSource, sink: &mut impl TreeSink)
    ensures
        final(sink).events() == old(sink).events() + leaves(
            old(source).remaining().take(whitespace_end(old(source).remaining(), 0)),
        ),
        final(source).remaining() == old(source).remaining().skip(
            whitespace_end(old(source).remaining(), 0),
        ),
{
    let ghost tokens = source.remaining();
    let ghost before = sink.events();
    let ghost mut passed: int = 0;
    assert(before + leaves(tokens.take(0)) =~= before);
    assert(tokens.skip(0) =~= tokens);
    while source.current() == SyntaxKind::WHITESPACE
        invariant
            0 <= passed <= tokens.len(),
            whitespace_end(tokens, passed) == whitespace_end(tokens, 0),
            source.remaining() == tokens.skip(passed),
            sink.events() == before + leaves(tokens.take(passed)),
        decreases tokens.len() - passed,
    {
        bump_token(source, sink);
        proof {
            assert(tokens.skip(passed).skip(1) =~= tokens.skip(passed + 1));
            assert((before + leaves(tokens.take(passed))).push(Event::Token(tokens[passed]))
                =~= before + leaves(tokens.take(passed + 1)));
            passed = passed + 1;
        }
    }
}

/// Consumes the token at the cursor and hands it to the sink as a leaf.
///
/// The current kind is read first. Where it is the sentinel there is no
/// token to consume: the sink receives nothing and the cursor is not moved.
pub fn bump_token(source: &mut impl TokenSource, sink: &mut impl TreeSink)
    ensures
        !at_end(old(source).remaining()) ==> {
            &&& final(sink).events() == old(sink).events().push(
                Event::Token(old(source).remaining()[0]),
            )
            &&& final(source).remaining() == old(source).remaining().skip(1)
        },
        at_end(old(source).remaining()) ==> {
            &&& final(sink).events() == old(sink).events()
            &&& final(source).remaining() == old(source).remaining()
        },
{
    let kind = source.current();
    if kind != SyntaxKind::EOF {
        sink.token(kind);
        source.bump();
    }
}

/// Tells whether `parse` works on a source that has these tokens ahead of
/// its cursor.
pub fn accepts(tokens: &[SyntaxKind]) -> (accepted: bool)
    ensures
        accepted == parse_accepts(tokens@),
{
    if tokens.len() == 0 || tokens[0] != SyntaxKind::LET_KW {
        return true;
    }
    let var: usize = whitespace_end_from(tokens, 1);
    if var >= tokens.len() || tokens[var] == SyntaxKind::EOF {
        return false;
    }
    let eq: usize = whitespace_end_from(tokens, var + 1);
    eq < tokens.len() && tokens[eq] == SyntaxKind::EQ
}

/// Finds where the run of whitespace that starts at `from` ends.
fn whitespace_end_from(tokens: &[SyntaxKind], from: usize) -> (end: usize)
    requires
        from <= tokens.len(),
    ensures
        end == whitespace_end(tokens@, from as int),
        from <= end <= tokens.len(),
{
    let mut end: usize = from;
    while end < tokens.len() && tokens[end] == SyntaxKind::WHITESPACE
        invariant
            from <= end <= tokens.len(),
            whitespace_end(tokens@, end as int) == whitespace_end(tokens@, from as int),
        decreases tokens.len() - end,
    {
        end = end + 1;
    }
    end
}

} // verus!
