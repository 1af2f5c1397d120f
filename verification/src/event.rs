//! Events: a syntax tree in the form of a sequence.

use crate::span::Span;
use crate::syntax_kind::SyntaxKind;
use vstd::prelude::*;

verus! {

/// A step in the description of a syntax tree.
#[derive(Debug, PartialEq, Eq)]
pub enum Event {
    /// A node of the given kind starts here.
    Begin(SyntaxKind),
    /// The node that started last ends here.
    End(SyntaxKind),
    /// A token.
    Token { kind: SyntaxKind, span: Span },
    /// An error found in the source code.
    Error { message: String, span: Span },
}

/// What an event says.
#[verifier::ext_equal]
pub enum EventView {
    Begin(SyntaxKind),
    End(SyntaxKind),
    Token(SyntaxKind, Span),
    Error(Seq<char>, Span),
}

impl View for Event {
    type V = EventView;

    open spec fn view(&self) -> EventView {
        match self {
            Event::Begin(kind) => EventView::Begin(*kind),
            Event::End(kind) => EventView::End(*kind),
            Event::Token { kind, span } => EventView::Token(*kind, *span),
            Event::Error { message, span } => EventView::Error(message@, *span),
        }
    }
}

/// What the events of a sequence say.
pub open spec fn views(events: Seq<Event>) -> Seq<EventView> {
    events.map_values(|event: Event| event@)
}

} // verus!
