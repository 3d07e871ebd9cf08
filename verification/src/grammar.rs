//! What each grammar rule consumes and emits, as functions of the tokens that
//! lie ahead of the cursor when the rule starts.

use crate::event::{leaves, Event};
use crate::source::{at_end, current_kind};
use crate::syntax_kind::SyntaxKind;
use vstd::prelude::*;

verus! {

/// The kind of the token at `index`, or the end-of-input sentinel where the
/// tokens do not reach that far.
pub open spec fn kind_at(tokens: Seq<SyntaxKind>, index: int) -> SyntaxKind {
    if 0 <= index < tokens.len() {
        tokens[index]
    } else {
        SyntaxKind::EOF
    }
}

/// Where the run of whitespace that starts at `from` ends: the index of the
/// first token at or after `from` that is not whitespace, or the number of
/// tokens if only whitespace follows. It is `from` itself where no
/// whitespace stands there.
pub open spec fn whitespace_end(tokens: Seq<SyntaxKind>, from: int) -> int
    decreases tokens.len() - from,
{
    if 0 <= from < tokens.len() && tokens[from] == SyntaxKind::WHITESPACE {
        whitespace_end(tokens, from + 1)
    } else {
        from
    }
}

/// A run of whitespace ends at the first token behind its start that is not
/// whitespace, within the tokens or at their end.
pub proof fn lemma_whitespace_end_is_first_other(tokens: Seq<SyntaxKind>, from: int)
    requires
        0 <= from <= tokens.len(),
    ensures
        from <= whitespace_end(tokens, from) <= tokens.len(),
        forall|i: int|
            from <= i < whitespace_end(tokens, from) ==> tokens[i] == SyntaxKind::WHITESPACE,
        kind_at(tokens, whitespace_end(tokens, from)) != SyntaxKind::WHITESPACE,
    decreases tokens.len() - from,
{
    if from < tokens.len() && tokens[from] == SyntaxKind::WHITESPACE {
        lemma_whitespace_end_is_first_other(tokens, from + 1);
    }
}

/// Dropping tokens in front shifts the end of a run of whitespace by as many.
pub proof fn lemma_whitespace_end_skip(tokens: Seq<SyntaxKind>, skipped: int, from: int)
    requires
        0 <= skipped <= tokens.len(),
        0 <= from,
    ensures
        whitespace_end(tokens.skip(skipped), from) == whitespace_end(tokens, skipped + from)
            - skipped,
    decreases tokens.len() - skipped - from,
{
    let rest = tokens.skip(skipped);
    if from < rest.len() && rest[from] == SyntaxKind::WHITESPACE {
        lemma_whitespace_end_skip(tokens, skipped, from + 1);
    }
}

/// The tokens that are consumed when one token and the whitespace behind it
/// are: the first of `tokens` and the run of whitespace that follows it. At
/// the end of input there is no token to consume, and none is.
pub open spec fn token_and_ws_kinds(tokens: Seq<SyntaxKind>) -> Seq<SyntaxKind> {
    if at_end(tokens) {
        Seq::empty()
    } else {
        tokens.take(whitespace_end(tokens, 1))
    }
}

/// The events of consuming one token and the whitespace behind it: a leaf
/// for each token consumed.
pub open spec fn token_and_ws_events(tokens: Seq<SyntaxKind>) -> Seq<Event> {
    leaves(token_and_ws_kinds(tokens))
}

/// What is left after consuming one token and the whitespace behind it.
pub open spec fn token_and_ws_rest(tokens: Seq<SyntaxKind>) -> Seq<SyntaxKind> {
    if at_end(tokens) {
        tokens
    } else {
        tokens.skip(whitespace_end(tokens, 1))
    }
}

/// One token and the whitespace behind it are a front part of the tokens:
/// what is consumed, followed by what is left, is what was there. Nothing
/// consumed is of the sentinel's kind.
pub proof fn lemma_token_and_ws_splits(tokens: Seq<SyntaxKind>)
    ensures
        token_and_ws_kinds(tokens) + token_and_ws_rest(tokens) == tokens,
        forall|i: int|
            0 <= i < token_and_ws_kinds(tokens).len() ==> #[trigger] token_and_ws_kinds(
                tokens,
            )[i] != SyntaxKind::EOF,
{
    if at_end(tokens) {
        assert(token_and_ws_kinds(tokens) + token_and_ws_rest(tokens) =~= tokens);
    } else {
        let end = whitespace_end(tokens, 1);
        lemma_whitespace_end_is_first_other(tokens, 1);
        assert(tokens.take(end) + tokens.skip(end) =~= tokens);
    }
}

/// The events of an expression: for now a single token with the whitespace
/// behind it, and no structure. At the end of input there is no expression
/// and no event.
pub open spec fn expr_events(tokens: Seq<SyntaxKind>) -> Seq<Event> {
    token_and_ws_events(tokens)
}

/// What is left after an expression.
pub open spec fn expr_rest(tokens: Seq<SyntaxKind>) -> Seq<SyntaxKind> {
    token_and_ws_rest(tokens)
}

/// In a `let` statement that starts at the first token: the index of the
/// variable, the first token behind the keyword and its whitespace.
pub open spec fn let_var_index(tokens: Seq<SyntaxKind>) -> int {
    whitespace_end(tokens, 1)
}

/// The index at which a `let` statement must show its `=`: behind the
/// variable and the whitespace that follows it.
pub open spec fn let_eq_index(tokens: Seq<SyntaxKind>) -> int {
    whitespace_end(tokens, let_var_index(tokens) + 1)
}

/// The index at which the expression of a `let` statement starts: behind
/// the `=` and the whitespace that follows it.
pub open spec fn let_expr_index(tokens: Seq<SyntaxKind>) -> int {
    whitespace_end(tokens, let_eq_index(tokens) + 1)
}

/// The tokens open with a `let` statement up to its `=`: the keyword,
/// whitespace or none, one token for the variable, of any kind but
/// whitespace and the sentinel, then whitespace or none, and `=`.
pub open spec fn begins_let_stmt(tokens: Seq<SyntaxKind>) -> bool {
    &&& current_kind(tokens) == SyntaxKind::LET_KW
    &&& kind_at(tokens, let_var_index(tokens)) != SyntaxKind::EOF
    &&& kind_at(tokens, let_eq_index(tokens)) == SyntaxKind::EQ
}

/// In tokens that open with a `let` statement, the variable, the `=` and the
/// place of the expression follow one another within the tokens. Only the
/// expression may be missing: its place may be the end of the tokens.
pub proof fn lemma_let_indices_in_order(tokens: Seq<SyntaxKind>)
    requires
        begins_let_stmt(tokens),
    ensures
        1 <= let_var_index(tokens) < let_eq_index(tokens) < let_expr_index(tokens)
            <= tokens.len(),
        tokens[0] == SyntaxKind::LET_KW,
        tokens[let_var_index(tokens)] != SyntaxKind::WHITESPACE,
        tokens[let_var_index(tokens)] != SyntaxKind::EOF,
        tokens[let_eq_index(tokens)] == SyntaxKind::EQ,
        kind_at(tokens, let_expr_index(tokens)) != SyntaxKind::WHITESPACE,
{
    lemma_whitespace_end_is_first_other(tokens, 1);
    lemma_whitespace_end_is_first_other(tokens, let_var_index(tokens) + 1);
    lemma_whitespace_end_is_first_other(tokens, let_eq_index(tokens) + 1);
}

/// The events of the variable of a `let` statement: a `LET_VAR` node around
/// the one token that stands for the variable.
pub open spec fn let_var_events(tokens: Seq<SyntaxKind>) -> Seq<Event> {
    seq![
        Event::StartNode(SyntaxKind::LET_VAR),
        Event::Token(tokens[let_var_index(tokens)]),
        Event::FinishNode,
    ]
}

/// The events inside a `let` statement that starts at the first token.
///
/// They are the keyword and its whitespace, the node of the variable, then
/// as direct children of the statement the whitespace before `=`, the `=`
/// and the whitespace behind it, and at last the expression.
pub open spec fn let_stmt_children(tokens: Seq<SyntaxKind>) -> Seq<Event> {
    let var = let_var_index(tokens);
    let expr = let_expr_index(tokens);
    leaves(tokens.take(var)) + let_var_events(tokens) + leaves(tokens.subrange(var + 1, expr))
        + expr_events(tokens.skip(expr))
}

/// The events of a `let` statement that starts at the first token: a
/// `LET_STMT` node around its children.
pub open spec fn let_stmt_events(tokens: Seq<SyntaxKind>) -> Seq<Event> {
    seq![Event::StartNode(SyntaxKind::LET_STMT)] + let_stmt_children(tokens) + seq![
        Event::FinishNode,
    ]
}

/// What is left after a `let` statement that starts at the first token.
pub open spec fn let_stmt_rest(tokens: Seq<SyntaxKind>) -> Seq<SyntaxKind> {
    expr_rest(tokens.skip(let_expr_index(tokens)))
}

/// The tokens that `parse` works on: whatever opens with `let` goes on as a
/// `let` statement does up to its `=`. Tokens that open otherwise are all
/// accepted.
pub open spec fn parse_accepts(tokens: Seq<SyntaxKind>) -> bool {
    current_kind(tokens) == SyntaxKind::LET_KW ==> begins_let_stmt(tokens)
}

/// The events of one parse: a root node, and inside it a `let` statement
/// where the first token is `let`, nothing otherwise.
pub open spec fn parse_events(tokens: Seq<SyntaxKind>) -> Seq<Event> {
    if current_kind(tokens) == SyntaxKind::LET_KW {
        seq![Event::StartNode(SyntaxKind::ROOT)] + let_stmt_events(tokens) + seq![
            Event::FinishNode,
        ]
    } else {
        seq![Event::StartNode(SyntaxKind::ROOT), Event::FinishNode]
    }
}

/// What is left after one parse.
pub open spec fn parse_rest(tokens: Seq<SyntaxKind>) -> Seq<SyntaxKind> {
    if current_kind(tokens) == SyntaxKind::LET_KW {
        let_stmt_rest(tokens)
    } else {
        tokens
    }
}

} // verus!
