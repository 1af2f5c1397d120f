//! A handwritten parser for YARA rules.
//!
//! The parser receives a sequence of tokens produced by the [`Tokenizer`], and
//! produces a concrete syntax tree ([`CST`]), also known as a lossless syntax
//! tree. The tree is initially represented as a stream of [events](`Event`),
//! which is later converted to a tree.
//!
//! The parser is error-tolerant, it is able to parse YARA code that contains
//! syntax errors. After each error, the parser recovers and keeps parsing the
//! remaining code. The resulting tree may contain error nodes with portions of
//! the code that are not syntactically correct, but anything outside of those
//! error nodes is as the [grammar](`crate::grammar`) describes it. A rule in which
//! there is an error may lack the parts that the error is about. One without
//! errors is complete.

pub mod parser_impl;
pub mod rules;
pub mod token_set;

use crate::cst::CST;
use crate::event::{views, Event, EventView};
use crate::item::events_of;
use crate::parser::parser_impl::ParserImpl;
use crate::syntax_kind::SyntaxKind;
use crate::tokenizer::Tokenizer;
use vstd::prelude::*;

verus! {

/// The event is a whitespace token.
pub open spec fn is_whitespace(event: EventView) -> bool {
    event matches EventView::Token(SyntaxKind::WHITESPACE, _)
}

/// The events that are left if the whitespace tokens are taken out.
pub open spec fn without_whitespaces(events: Seq<EventView>) -> Seq<EventView>
    decreases events.len(),
{
    if events.len() == 0 {
        events
    } else if is_whitespace(events[0]) {
        without_whitespaces(events.drop_first())
    } else {
        seq![events[0]] + without_whitespaces(events.drop_first())
    }
}

/// The events for a source file, with whitespaces or not.
pub open spec fn selected(events: Seq<EventView>, whitespaces: bool) -> Seq<EventView> {
    if whitespaces {
        events
    } else {
        without_whitespaces(events)
    }
}

/// Produces a concrete syntax tree ([`CST`]) for a given YARA source code.
pub struct Parser<'src> {
    parser: ParserImpl<'src>,
    whitespaces: bool,
}

impl<'src> Parser<'src> {
    /// The source code.
    pub closed spec fn src(&self) -> Seq<u8> {
        self.parser.src()
    }

    /// The tree will contain whitespaces.
    pub closed spec fn keeps_whitespaces(&self) -> bool {
        self.whitespaces
    }

    /// The parser has not started yet.
    pub closed spec fn wf(&self) -> bool {
        self.parser.idle() && self.parser.remaining() == events_of(self.src())
    }

    /// Creates a new parser for the given source code.
    pub fn new(source: &'src [u8]) -> (parser: Self)
        ensures
            parser.wf(),
            parser.src() == source@,
            parser.keeps_whitespaces(),
    {
        Parser { parser: ParserImpl::from(Tokenizer::new(source)), whitespaces: true }
    }

    /// Enables or disables whitespaces in the returned tree.
    ///
    /// If false, the resulting tree won't contain whitespaces.
    ///
    /// Default value is `true`.
    pub fn whitespaces(self, yes: bool) -> (parser: Self)
        requires
            self.wf(),
        ensures
            parser.wf(),
            parser.src() == self.src(),
            parser.keeps_whitespaces() == yes,
    {
        Parser { parser: self.parser, whitespaces: yes }
    }

    /// Returns the source code passed to the parser.
    pub fn source(&self) -> (source: &'src [u8])
        ensures
            source@ == self.src(),
    {
        self.parser.source()
    }

    /// Returns the tree as a sequence of events.
    pub fn events(self) -> (events: Events<'src>)
        requires
            self.wf(),
        ensures
            events.wf(),
            events.remaining() == selected(events_of(self.src()), self.keeps_whitespaces()),
    {
        Events { parser: self.parser, whitespaces: self.whitespaces }
    }

    /// Consumes the parser and builds a concrete syntax tree.
    pub fn build_cst(self) -> (cst: CST)
        requires
            self.wf(),
        ensures
            cst.describes(selected(events_of(self.src()), self.keeps_whitespaces())),
    {
        CST::from(self)
    }
}

/// A syntax tree in the form of a sequence of [events](`Event`).
pub struct Events<'src> {
    parser: ParserImpl<'src>,
    whitespaces: bool,
}

impl<'src> Events<'src> {
    /// The events that have not been returned yet.
    pub closed spec fn remaining(&self) -> Seq<EventView> {
        selected(self.parser.remaining(), self.whitespaces)
    }

    /// The parser is between two items.
    pub closed spec fn wf(&self) -> bool {
        self.parser.idle()
    }

    /// Returns the next event, or `None` if there are no more events.
    pub fn next(&mut self) -> (event: Option<Event>)
        requires
            old(self).wf(),
        ensures
            final(self).wf(),
            match event {
                Some(event) => {
                    &&& old(self).remaining().len() > 0
                    &&& event@ == old(self).remaining()[0]
                    &&& final(self).remaining() == old(self).remaining().drop_first()
                },
                None => old(self).remaining().len() == 0 && final(self).remaining().len() == 0,
            },
    {
        let ghost before = self.remaining();
        if self.whitespaces {
            return self.parser.next();
        }
        loop
            invariant
                self.parser.idle(),
                !self.whitespaces,
                self.remaining() == before,
                before == old(self).remaining(),
            decreases self.parser.remaining().len(),
        {
            let ghost all = self.parser.remaining();
            match self.parser.next() {
                // ignore whitespace and get next event
                Some(Event::Token { kind: SyntaxKind::WHITESPACE, span: _ }) => {},
                Some(event) => {
                    assert(without_whitespaces(all) == seq![all[0]] + without_whitespaces(
                        all.drop_first(),
                    ));
                    assert(self.remaining() =~= before.drop_first());
                    return Some(event);
                },
                None => {
                    return None;
                },
            }
        }
    }

    /// Returns all the events that have not been returned yet.
    pub fn into_vec(self) -> (events: Vec<Event>)
        requires
            self.wf(),
        ensures
            views(events@) == self.remaining(),
    {
        let mut this = self;
        let mut events: Vec<Event> = Vec::new();
        loop
            invariant
                this.wf(),
                views(events@) + this.remaining() == self.remaining(),
            decreases this.remaining().len(),
        {
            let ghost done = events@;
            let ghost left = this.remaining();
            match this.next() {
                Some(event) => {
                    events.push(event);
                    assert(views(events@) + this.remaining() =~= views(done) + left);
                },
                None => {
                    assert(views(events@) =~= self.remaining());
                    return events;
                },
            }
        }
    }
}

} // verus!
