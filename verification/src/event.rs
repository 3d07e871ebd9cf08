//! The events that the parser emits, and what it means for a stream of them
//! to describe a tree.

use crate::syntax_kind::SyntaxKind;
use vstd::prelude::*;

verus! {

/// One structural event, as contracts speak of it.
pub enum Event {
    /// Opens a node of the given kind.
    StartNode(SyntaxKind),
    /// A leaf: one consumed token.
    Token(SyntaxKind),
    /// Closes the innermost open node.
    FinishNode,
    /// A diagnostic, attached where it is reported; it opens and closes nothing.
    Error(Seq<char>),
}

/// One structural event, as executable code holds it.
#[derive(Debug, PartialEq, Eq)]
pub enum TreeEvent {
    /// Opens a node of the given kind.
    StartNode(SyntaxKind),
    /// A leaf: one consumed token.
    Token(SyntaxKind),
    /// Closes the innermost open node.
    FinishNode,
    /// A diagnostic with its message.
    Error(String),
}

impl View for TreeEvent {
    type V = Event;

    open spec fn view(&self) -> Event {
        match *self {
            TreeEvent::StartNode(kind) => Event::StartNode(kind),
            TreeEvent::Token(kind) => Event::Token(kind),
            TreeEvent::FinishNode => Event::FinishNode,
            TreeEvent::Error(message) => Event::Error(message@),
        }
    }
}

/// The events that a log of executable events stands for, in order.
pub open spec fn event_views(log: Seq<TreeEvent>) -> Seq<Event> {
    log.map_values(|event: TreeEvent| event@)
}

/// The given tokens as leaves, one `Token` event each, in order.
pub open spec fn leaves(tokens: Seq<SyntaxKind>) -> Seq<Event> {
    Seq::new(tokens.len(), |i: int| Event::Token(tokens[i]))
}

/// What one event adds to the number of open nodes.
pub open spec fn nesting_step(event: Event) -> int {
    match event {
        Event::StartNode(_) => 1,
        Event::FinishNode => -1,
        _ => 0,
    }
}

/// The nodes that a stream starts minus those that it finishes. Negative
/// where it finishes more than it starts.
pub open spec fn depth(events: Seq<Event>) -> int
    decreases events.len(),
{
    if events.len() == 0 {
        0
    } else {
        depth(events.drop_last()) + nesting_step(events.last())
    }
}

/// No prefix of the stream finishes a node that it has not started.
pub open spec fn no_stray_finish(events: Seq<Event>) -> bool {
    forall|n: int| 0 <= n <= events.len() ==> depth(#[trigger] events.take(n)) >= 0
}

/// Starts and finishes pair up like balanced brackets: every finish closes a
/// node that the stream has started, and every node started is finished.
pub open spec fn well_nested(events: Seq<Event>) -> bool {
    &&& no_stray_finish(events)
    &&& depth(events) == 0
}

/// How many nodes stand open once `event` has reached a sink in which `open`
/// stood open: a start opens one, a finish closes the innermost. A finish
/// that finds none open closes nothing.
pub open spec fn open_after(open: nat, event: Event) -> nat {
    match event {
        Event::StartNode(_) => open + 1,
        Event::FinishNode => if open > 0 {
            (open - 1) as nat
        } else {
            0
        },
        _ => open,
    }
}

/// How many nodes stand open in a sink that has received `events`.
pub open spec fn open_nodes(events: Seq<Event>) -> nat
    decreases events.len(),
{
    if events.len() == 0 {
        0
    } else {
        open_after(open_nodes(events.drop_last()), events.last())
    }
}

/// The stream is exactly one node of the given kind: its start, then the
/// well-nested events of its children, then its finish.
pub open spec fn is_node(events: Seq<Event>, kind: SyntaxKind) -> bool {
    &&& events.len() >= 2
    &&& events.first() == Event::StartNode(kind)
    &&& events.last() == Event::FinishNode
    &&& well_nested(interior(events))
}

/// What stands between the first and the last event.
pub open spec fn interior(events: Seq<Event>) -> Seq<Event> {
    events.subrange(1, events.len() - 1)
}

/// The kinds of the `Token` events of a stream, in the order of emission.
pub open spec fn token_kinds(events: Seq<Event>) -> Seq<SyntaxKind>
    decreases events.len(),
{
    if events.len() == 0 {
        Seq::empty()
    } else {
        match events.last() {
            Event::Token(kind) => token_kinds(events.drop_last()).push(kind),
            _ => token_kinds(events.drop_last()),
        }
    }
}

/// The kinds of the nodes that a stream starts, in the order of emission.
pub open spec fn node_kinds(events: Seq<Event>) -> Seq<SyntaxKind>
    decreases events.len(),
{
    if events.len() == 0 {
        Seq::empty()
    } else {
        match events.last() {
            Event::StartNode(kind) => node_kinds(events.drop_last()).push(kind),
            _ => node_kinds(events.drop_last()),
        }
    }
}

} // verus!
