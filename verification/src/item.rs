//! What the parser does with a whole source file.
//!
//! The file is parsed one top-level item at a time. An item is an import
//! statement or a rule declaration.

use crate::event::EventView;
use crate::grammar::Expr;
use crate::message::expecting_item;
use crate::semantics::parses;
use crate::state::State;
use crate::syntax_kind::SyntaxKind;
use crate::syntax_stream::Output;
use crate::token::{description_of, Token, TokenId};
use crate::token_stream::token_after;
use crate::tokenizer::{Cursor, Mode};
use vstd::prelude::*;

verus! {

impl State {
    /// The state in which the parser starts.
    pub open spec fn initial(src: Seq<u8>) -> State {
        State {
            src,
            cursor: Cursor { pos: 0, index: 0, mode: Mode::Normal },
            out: Output { events: Seq::empty(), open: Seq::empty() },
            failed: false,
            in_opt: false,
            in_not: false,
            expected: Map::empty(),
            unexpected: Set::empty(),
            pending: Seq::empty(),
            cache: Set::empty(),
        }
    }

    /// A token that no item starts with goes to the output, under an error
    /// node.
    pub open spec fn reject(self, token: Token) -> State {
        let out = self.out.push(
            EventView::Error(expecting_item(description_of(token.id)), token.span),
        ).begin(SyntaxKind::ERROR);
        let taken = State { out, ..self }.bump();
        State { out: taken.out.end(), failed: true, ..taken }
    }

    /// An item has been parsed: the errors go to the output, and the parser is
    /// ready for the next one.
    pub open spec fn leave_item(self) -> State {
        State { cache: Set::empty(), failed: false, ..self.flush_errors() }
    }

    /// The events have been handed out.
    pub open spec fn drained(self) -> State {
        State { out: Output { events: Seq::empty(), ..self.out }, ..self }
    }
}

/// Parsing a top-level item takes the parser from a state to another one.
///
/// ```text
/// TOP_LEVEL_ITEM ::= ( IMPORT_STMT | RULE_DECL )
/// ```
pub open spec fn parses_item(s: State, t: State) -> bool {
    match token_after(s.src, s.cursor) {
        None => t == State { failed: true, ..s },
        Some(token) => match token.id {
            TokenId::IMPORT_KW => parses(Expr::Rule(SyntaxKind::IMPORT_STMT), s, t),
            TokenId::GLOBAL_KW | TokenId::PRIVATE_KW | TokenId::RULE_KW => parses(
                Expr::Rule(SyntaxKind::RULE_DECL),
                s,
                t,
            ),
            _ => t == s.reject(token),
        },
    }
}

/// Parsing the next item, with what is around it, takes the parser from a
/// state to another one.
pub open spec fn parses_next(s: State, t: State) -> bool {
    exists|u: State| #[trigger] parses_item(s.trivia(), u) && t == u.leave_item()
}

/// The state of the parser after the next item.
pub open spec fn after_next(s: State) -> State {
    choose|t: State| parses_next(s, t)
}

/// The events for the rest of the source.
pub open spec fn events_from(s: State) -> Seq<EventView>
    decreases s.rest(),
{
    let t = after_next(s);
    if s.cursor.pos < s.src.len() && t.rest() < s.rest() {
        t.out.events + events_from(t.drained())
    } else {
        Seq::empty()
    }
}

/// The events for a source file.
pub open spec fn events_of(src: Seq<u8>) -> Seq<EventView> {
    seq![EventView::Begin(SyntaxKind::SOURCE_FILE)] + events_from(State::initial(src)) + seq![
        EventView::End(SyntaxKind::SOURCE_FILE),
    ]
}

} // verus!
