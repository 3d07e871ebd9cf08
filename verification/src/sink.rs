//! The push side of the parser: a builder that receives the events.

use crate::event::{event_views, open_nodes, Event, TreeEvent};
use crate::syntax_kind::SyntaxKind;
use vstd::prelude::*;

verus! {

/// A push-only receiver of structural events.
///
/// What a sink makes of the events (a tree, a printout, a count) is its own
/// affair. Contracts speak only of the order in which it received them.
pub trait TreeSink {
    /// Every event received so far, oldest first.
    spec fn events(&self) -> Seq<Event>;

    /// Receives a leaf: one consumed token.
    fn token(&mut self, kind: SyntaxKind)
        ensures
            final(self).events() == old(self).events().push(Event::Token(kind)),
    ;

    /// Opens a node of the given kind inside the innermost open node.
    fn start_node(&mut self, kind: SyntaxKind)
        ensures
            final(self).events() == old(self).events().push(Event::StartNode(kind)),
    ;

    /// Closes the innermost open node. The caller answers for there being one.
    fn finish_node(&mut self)
        requires
            open_nodes(old(self).events()) > 0,
        ensures
            final(self).events() == old(self).events().push(Event::FinishNode),
    ;

    /// Receives a diagnostic. It is an annotation: no node opens or closes.
    fn error(&mut self, error: String)
        ensures
            final(self).events() == old(self).events().push(Event::Error(error@)),
    ;
}

/// A sink that keeps the events as it received them.
pub struct EventRecorder {
    log: Vec<TreeEvent>,
}

impl View for EventRecorder {
    type V = Seq<Event>;

    closed spec fn view(&self) -> Seq<Event> {
        event_views(self.log@)
    }
}

impl EventRecorder {
    /// A recorder that has received nothing.
    pub fn new() -> (recorder: EventRecorder)
        ensures
            recorder@ == Seq::<Event>::empty(),
    {
        let recorder = EventRecorder { log: Vec::new() };
        assert(recorder@ =~= Seq::<Event>::empty());
        recorder
    }

    /// Hands over the recorded events, oldest first.
    pub fn into_events(self) -> (log: Vec<TreeEvent>)
        ensures
            event_views(log@) == self@,
    {
        self.log
    }

    fn record(&mut self, event: TreeEvent)
        ensures
            final(self)@ == old(self)@.push(event@),
    {
        self.log.push(event);
        assert(self@ =~= old(self)@.push(event@));
    }
}

impl TreeSink for EventRecorder {
    open spec fn events(&self) -> Seq<Event> {
        self@
    }

    fn token(&mut self, kind: SyntaxKind) {
        self.record(TreeEvent::Token(kind));
    }

    fn start_node(&mut self, kind: SyntaxKind) {
        self.record(TreeEvent::StartNode(kind));
    }

    fn finish_node(&mut self) {
        self.record(TreeEvent::FinishNode);
    }

    fn error(&mut self, error: String) {
        self.record(TreeEvent::Error(error));
    }
}

} // verus!
