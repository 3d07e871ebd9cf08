//! Facts about streams of events: how depth, nesting and the projections on
//! tokens and nodes behave when streams are joined.

use crate::event::{
    depth, interior, is_node, leaves, no_stray_finish, node_kinds, open_after, open_nodes,
    token_kinds, well_nested, Event,
};
use crate::syntax_kind::SyntaxKind;
use vstd::prelude::*;

verus! {

/// The depth of two streams joined is the sum of their depths.
pub proof fn lemma_depth_add(front: Seq<Event>, back: Seq<Event>)
    ensures
        depth(front + back) == depth(front) + depth(back),
    decreases back.len(),
{
    if back.len() == 0 {
        assert(front + back =~= front);
    } else {
        assert((front + back).drop_last() =~= front + back.drop_last());
        lemma_depth_add(front, back.drop_last());
    }
}

/// Leaves open and close nothing, and neither does any prefix of them.
pub proof fn lemma_leaves_well_nested(tokens: Seq<SyntaxKind>)
    ensures
        well_nested(leaves(tokens)),
{
    let events = leaves(tokens);
    assert forall|n: int| 0 <= n <= events.len() implies depth(#[trigger] events.take(n))
        == 0 by {
        lemma_depth_leaves(tokens.take(n));
        assert(events.take(n) =~= leaves(tokens.take(n)));
    }
    assert(events.take(events.len() as int) =~= events);
}

/// The depth of leaves is zero.
pub proof fn lemma_depth_leaves(tokens: Seq<SyntaxKind>)
    ensures
        depth(leaves(tokens)) == 0,
    decreases tokens.len(),
{
    if tokens.len() > 0 {
        assert(leaves(tokens).drop_last() =~= leaves(tokens.drop_last()));
        lemma_depth_leaves(tokens.drop_last());
    }
}

/// Two well-nested streams joined are well nested.
pub proof fn lemma_well_nested_add(front: Seq<Event>, back: Seq<Event>)
    requires
        well_nested(front),
        well_nested(back),
    ensures
        well_nested(front + back),
{
    let joined = front + back;
    lemma_depth_add(front, back);
    assert forall|n: int| 0 <= n <= joined.len() implies depth(#[trigger] joined.take(n))
        >= 0 by {
        if n <= front.len() {
            assert(joined.take(n) =~= front.take(n));
        } else {
            let m = n - front.len();
            assert(joined.take(n) =~= front + back.take(m));
            lemma_depth_add(front, back.take(m));
        }
    }
}

/// A node is well nested, and between its start and its finish it is open.
pub proof fn lemma_node_well_nested(events: Seq<Event>, kind: SyntaxKind)
    requires
        is_node(events, kind),
    ensures
        well_nested(events),
        forall|n: int| 0 < n < events.len() ==> depth(#[trigger] events.take(n)) >= 1,
{
    let inner = interior(events);
    let start = seq![Event::StartNode(kind)];
    assert(depth(start) == 1) by {
        reveal_with_fuel(depth, 2);
    }
    assert forall|n: int| 0 < n < events.len() implies depth(#[trigger] events.take(n))
        >= 1 by {
        assert(events.take(n) =~= start + inner.take(n - 1));
        lemma_depth_add(start, inner.take(n - 1));
    }
    assert(depth(events) == 0) by {
        assert(events.drop_last() =~= start + inner);
        lemma_depth_add(start, inner);
    }
    assert forall|n: int| 0 <= n <= events.len() implies depth(#[trigger] events.take(n))
        >= 0 by {
        if n == 0 {
        } else if n == events.len() {
            assert(events.take(n) =~= events);
        }
    }
}

/// A stream that finishes no node but its own adds its depth to the number
/// of nodes that stood open before it.
pub proof fn lemma_open_nodes_add(front: Seq<Event>, back: Seq<Event>)
    requires
        no_stray_finish(back),
    ensures
        open_nodes(front + back) == open_nodes(front) + depth(back),
    decreases back.len(),
{
    if back.len() == 0 {
        assert(front + back =~= front);
    } else {
        let init = back.drop_last();
        assert(no_stray_finish(init)) by {
            assert forall|n: int| 0 <= n <= init.len() implies depth(#[trigger] init.take(n))
                >= 0 by {
                assert(init.take(n) =~= back.take(n));
            }
        }
        assert(depth(init) >= 0) by {
            assert(back.take(init.len() as int) =~= init);
        }
        assert(depth(back) >= 0) by {
            assert(back.take(back.len() as int) =~= back);
        }
        assert((front + back).drop_last() =~= front + init);
        lemma_open_nodes_add(front, init);
    }
}

/// One more event changes the number of open nodes by what it opens or
/// closes.
pub proof fn lemma_open_nodes_push(events: Seq<Event>, event: Event)
    ensures
        open_nodes(events.push(event)) == open_after(open_nodes(events), event),
{
    assert(events.push(event).drop_last() =~= events);
}

/// Leaves change nothing about the nodes that stand open.
pub proof fn lemma_open_nodes_leaves(events: Seq<Event>, tokens: Seq<SyntaxKind>)
    ensures
        open_nodes(events + leaves(tokens)) == open_nodes(events),
{
    lemma_leaves_well_nested(tokens);
    lemma_open_nodes_add(events, leaves(tokens));
}

/// The tokens of two streams joined are the tokens of the first, then those
/// of the second.
pub proof fn lemma_token_kinds_add(front: Seq<Event>, back: Seq<Event>)
    ensures
        token_kinds(front + back) == token_kinds(front) + token_kinds(back),
    decreases back.len(),
{
    if back.len() == 0 {
        assert(front + back =~= front);
        assert(token_kinds(front) + token_kinds(back) =~= token_kinds(front));
    } else {
        assert((front + back).drop_last() =~= front + back.drop_last());
        lemma_token_kinds_add(front, back.drop_last());
        assert(token_kinds(front + back) =~= token_kinds(front) + token_kinds(back));
    }
}

/// The tokens of leaves are the tokens that they were made of.
pub proof fn lemma_token_kinds_leaves(tokens: Seq<SyntaxKind>)
    ensures
        token_kinds(leaves(tokens)) == tokens,
    decreases tokens.len(),
{
    if tokens.len() == 0 {
        assert(token_kinds(leaves(tokens)) =~= tokens);
    } else {
        assert(leaves(tokens).drop_last() =~= leaves(tokens.drop_last()));
        lemma_token_kinds_leaves(tokens.drop_last());
        assert(token_kinds(leaves(tokens)) =~= tokens);
    }
}

/// The nodes of two streams joined are the nodes of the first, then those of
/// the second.
pub proof fn lemma_node_kinds_add(front: Seq<Event>, back: Seq<Event>)
    ensures
        node_kinds(front + back) == node_kinds(front) + node_kinds(back),
    decreases back.len(),
{
    if back.len() == 0 {
        assert(front + back =~= front);
        assert(node_kinds(front) + node_kinds(back) =~= node_kinds(front));
    } else {
        assert((front + back).drop_last() =~= front + back.drop_last());
        lemma_node_kinds_add(front, back.drop_last());
        assert(node_kinds(front + back) =~= node_kinds(front) + node_kinds(back));
    }
}

/// Leaves start no node.
pub proof fn lemma_node_kinds_leaves(tokens: Seq<SyntaxKind>)
    ensures
        node_kinds(leaves(tokens)) == Seq::<SyntaxKind>::empty(),
    decreases tokens.len(),
{
    if tokens.len() > 0 {
        assert(leaves(tokens).drop_last() =~= leaves(tokens.drop_last()));
        lemma_node_kinds_leaves(tokens.drop_last());
    }
}

} // verus!
