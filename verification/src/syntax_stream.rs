//! The stream where the parser puts the events of the syntax tree.

use crate::event::{views, Event, EventView};
use crate::span::Span;
use crate::syntax_kind::SyntaxKind;
use vstd::prelude::*;

verus! {

/// What a stream holds: the events, and where those that start the nodes which
/// have not ended yet are, the outermost first.
#[verifier::ext_equal]
pub struct Output {
    pub events: Seq<EventView>,
    pub open: Seq<int>,
}

impl Output {
    /// Each open node starts within the events, after the one around it.
    pub open spec fn wf(self) -> bool {
        &&& forall|i: int|
            0 <= i < self.open.len() ==> {
                &&& 0 <= #[trigger] self.open[i] < self.events.len()
                &&& self.events[self.open[i]] is Begin
            }
        &&& forall|i: int, j: int|
            0 <= i < j < self.open.len() ==> #[trigger] self.open[i] < #[trigger] self.open[j]
    }

    /// An event is added.
    pub open spec fn push(self, event: EventView) -> Output {
        Output { events: self.events.push(event), open: self.open }
    }

    /// A node starts.
    pub open spec fn begin(self, kind: SyntaxKind) -> Output {
        Output {
            events: self.events.push(EventView::Begin(kind)),
            open: self.open.push(self.events.len() as int),
        }
    }

    /// The innermost open node ends.
    pub open spec fn end(self) -> Output {
        Output {
            events: self.events.push(EventView::End(self.events[self.open.last()]->Begin_0)),
            open: self.open.drop_last(),
        }
    }

    /// The innermost open node turns into an error and ends.
    pub open spec fn end_with_error(self) -> Output {
        Output {
            events: self.events.update(
                self.open.last(),
                EventView::Begin(SyntaxKind::ERROR),
            ).push(EventView::End(SyntaxKind::ERROR)),
            open: self.open.drop_last(),
        }
    }

    /// The first `len` events, with the nodes that are open after them.
    pub open spec fn truncate(self, len: int) -> Output {
        Output { events: self.events.take(len), open: kept(self.open, len) }
    }

    /// Adding an event leaves the open nodes where they are.
    pub proof fn lemma_push(self, event: EventView)
        requires
            self.wf(),
        ensures
            self.push(event).wf(),
    {
        let next = self.push(event);
        assert forall|i: int| 0 <= i < next.open.len() implies {
            &&& 0 <= #[trigger] next.open[i] < next.events.len()
            &&& next.events[next.open[i]] is Begin
        } by {
            assert(self.events[self.open[i]] is Begin);
        }
    }

    /// Adding some events leaves the open nodes where they are.
    pub proof fn lemma_append(self, events: Seq<EventView>)
        requires
            self.wf(),
        ensures
            (Output { events: self.events + events, open: self.open }).wf(),
    {
        let next = Output { events: self.events + events, open: self.open };
        assert forall|i: int| 0 <= i < next.open.len() implies {
            &&& 0 <= #[trigger] next.open[i] < next.events.len()
            &&& next.events[next.open[i]] is Begin
        } by {
            assert(self.events[self.open[i]] is Begin);
        }
    }

    /// A node that starts is the innermost open one.
    pub proof fn lemma_begin(self, kind: SyntaxKind)
        requires
            self.wf(),
        ensures
            self.begin(kind).wf(),
    {
        let next = self.begin(kind);
        assert forall|i: int| 0 <= i < next.open.len() implies {
            &&& 0 <= #[trigger] next.open[i] < next.events.len()
            &&& next.events[next.open[i]] is Begin
        } by {
            if i < self.open.len() {
                assert(self.events[self.open[i]] is Begin);
            }
        }
        assert forall|i: int, j: int| 0 <= i < j < next.open.len() implies #[trigger] next.open[i]
            < #[trigger] next.open[j] by {
            assert(0 <= self.open[i] < self.events.len());
            if j < self.open.len() {
                assert(self.open[i] < self.open[j]);
            }
        }
    }

    /// A node that ends is not open any more.
    pub proof fn lemma_end(self)
        requires
            self.wf(),
            self.open.len() > 0,
        ensures
            self.end().wf(),
            self.end_with_error().wf(),
    {
        let last = self.open.len() - 1;
        assert(0 <= self.open[last] < self.events.len());
        assert forall|i: int| 0 <= i < last implies {
            &&& 0 <= #[trigger] self.open[i] < self.open[last]
            &&& self.events[self.open[i]] is Begin
        } by {
            assert(self.open[i] < self.open[last]);
        }
        assert forall|i: int, j: int| 0 <= i < j < last implies #[trigger] self.open[i]
            < #[trigger] self.open[j] by {}
        let next = self.end();
        assert forall|i: int| 0 <= i < next.open.len() implies {
            &&& 0 <= #[trigger] next.open[i] < next.events.len()
            &&& next.events[next.open[i]] is Begin
        } by {
            assert(next.open[i] == self.open[i]);
        }
        let next = self.end_with_error();
        assert forall|i: int| 0 <= i < next.open.len() implies {
            &&& 0 <= #[trigger] next.open[i] < next.events.len()
            &&& next.events[next.open[i]] is Begin
        } by {
            assert(next.open[i] == self.open[i]);
        }
    }

    /// Dropping the last events leaves the open nodes that started before.
    pub proof fn lemma_truncate(self, len: int)
        requires
            self.wf(),
            0 <= len <= self.events.len(),
        ensures
            self.truncate(len).wf(),
    {
        let next = self.truncate(len);
        lemma_kept_prefix(self.open, len);
        assert forall|i: int| 0 <= i < next.open.len() implies {
            &&& 0 <= #[trigger] next.open[i] < next.events.len()
            &&& next.events[next.open[i]] is Begin
        } by {
            let last = next.open.len() - 1;
            assert(next.open[i] == self.open[i]);
            assert(self.events[self.open[i]] is Begin);
            if i < last {
                assert(self.open[i] < self.open[last]);
            }
        }
        assert forall|i: int, j: int| 0 <= i < j < next.open.len() implies #[trigger] next.open[i]
            < #[trigger] next.open[j] by {
            assert(self.open[i] < self.open[j]);
        }
    }
}

/// The numbers that are kept come first, and the last of them is less than
/// `len`.
proof fn lemma_kept_prefix(open: Seq<int>, len: int)
    ensures
        kept(open, len).len() <= open.len(),
        kept(open, len) == open.take(kept(open, len).len() as int),
        kept(open, len).len() > 0 ==> kept(open, len).last() < len,
    decreases open.len(),
{
    if open.len() > 0 && open.last() >= len {
        lemma_kept_prefix(open.drop_last(), len);
        assert(kept(open, len) =~= open.take(kept(open, len).len() as int));
    } else {
        assert(open =~= open.take(open.len() as int));
    }
}

/// The numbers of an increasing sequence that are less than `len`.
pub open spec fn kept(open: Seq<int>, len: int) -> Seq<int>
    decreases open.len(),
{
    if open.len() > 0 && open.last() >= len {
        kept(open.drop_last(), len)
    } else {
        open
    }
}

/// Nothing is dropped from a sequence whose numbers are all less than `len`,
/// and what is dropped was not.
pub proof fn lemma_kept(open: Seq<int>, more: Seq<int>, len: int)
    requires
        forall|i: int| 0 <= i < open.len() ==> #[trigger] open[i] < len,
        forall|i: int| 0 <= i < more.len() ==> #[trigger] more[i] >= len,
    ensures
        kept(open + more, len) == open,
    decreases more.len(),
{
    if more.len() > 0 {
        assert((open + more).drop_last() =~= open + more.drop_last());
        lemma_kept(open, more.drop_last(), len);
    } else {
        assert(open + more =~= open);
    }
}

/// Remembers how many events a stream had.
pub struct Bookmark(usize);

impl Bookmark {
    /// The number of events.
    pub closed spec fn len(&self) -> int {
        self.0 as int
    }
}

/// A syntax tree in the form of a stream of events.
pub struct SyntaxStream {
    /// The events, including those that have been handed out.
    events: Vec<Event>,
    /// How many events have been handed out.
    taken: usize,
    /// Where the events that start the open nodes are.
    open_begins: Vec<usize>,
}

impl View for SyntaxStream {
    type V = Output;

    closed spec fn view(&self) -> Output {
        Output {
            events: views(self.events@.skip(self.taken as int)),
            open: self.open_begins@.map_values(|at: usize| at as int),
        }
    }
}

impl SyntaxStream {
    /// Events are handed out only between nodes.
    pub closed spec fn wf(&self) -> bool {
        &&& self@.wf()
        &&& self.taken <= self.events@.len()
        &&& self.taken > 0 ==> self.taken < self.events@.len() && self.open_begins@.len() == 0
    }

    /// Some of the events have been handed out, but not all.
    pub closed spec fn draining(&self) -> bool {
        self.taken > 0
    }

    /// A stream without events is not being handed out.
    pub proof fn lemma_empty(&self)
        requires
            self.wf(),
            self@.events.len() == 0,
        ensures
            !self.draining(),
    {
    }

    /// The nodes that are open are where the stream says.
    pub proof fn lemma_wf(&self)
        requires
            self.wf(),
        ensures
            self@.wf(),
    {
    }

    /// Creates an empty stream.
    pub fn new() -> (stream: Self)
        ensures
            stream.wf(),
            !stream.draining(),
            stream@.events.len() == 0,
            stream@.open.len() == 0,
    {
        let stream = SyntaxStream { events: Vec::new(), taken: 0, open_begins: Vec::new() };
        stream
    }

    /// Adds an event.
    fn push(&mut self, event: Event)
        requires
            old(self).wf(),
            !old(self).draining(),
        ensures
            final(self).wf(),
            !final(self).draining(),
            final(self)@ == old(self)@.push(event@),
    {
        let ghost before = *self;
        self.events.push(event);
        proof {
            assert(self@ =~= before@.push(event@));
            before@.lemma_push(event@);
        }
    }

    /// Adds a token.
    pub fn push_token(&mut self, kind: SyntaxKind, span: Span)
        requires
            old(self).wf(),
            !old(self).draining(),
        ensures
            final(self).wf(),
            !final(self).draining(),
            final(self)@ == old(self)@.push(EventView::Token(kind, span)),
    {
        self.push(Event::Token { kind, span });
    }

    /// Adds an error.
    pub fn push_error(&mut self, message: String, span: Span)
        requires
            old(self).wf(),
            !old(self).draining(),
        ensures
            final(self).wf(),
            !final(self).draining(),
            final(self)@ == old(self)@.push(EventView::Error(message@, span)),
    {
        self.push(Event::Error { message, span });
    }

    /// Starts a node.
    pub fn begin(&mut self, kind: SyntaxKind)
        requires
            old(self).wf(),
            !old(self).draining(),
        ensures
            final(self).wf(),
            !final(self).draining(),
            final(self)@ == old(self)@.begin(kind),
    {
        let ghost before = *self;
        let at = self.events.len();
        self.open_begins.push(at);
        self.events.push(Event::Begin(kind));
        proof {
            assert(self@ =~= before@.begin(kind));
            before@.lemma_begin(kind);
        }
    }

    /// Ends the innermost open node.
    pub fn end(&mut self)
        requires
            old(self).wf(),
            !old(self).draining(),
            old(self)@.open.len() > 0,
        ensures
            final(self).wf(),
            !final(self).draining(),
            final(self)@ == old(self)@.end(),
    {
        let ghost before = *self;
        let at = self.open_begins[self.open_begins.len() - 1];
        proof {
            let last = before@.open.len() - 1;
            assert(before@.open[last] == at as int);
            assert(before@.events[before@.open[last]] is Begin);
            assert(before@.events[at as int] == before.events@[at as int]@);
        }
        let kind = match &self.events[at] {
            Event::Begin(kind) => *kind,
            _ => SyntaxKind::ERROR,
        };
        self.open_begins.pop();
        self.events.push(Event::End(kind));
        proof {
            assert(self@ =~= before@.end());
            before@.lemma_end();
        }
    }

    /// Turns the innermost open node into an error and ends it.
    pub fn end_with_error(&mut self)
        requires
            old(self).wf(),
            !old(self).draining(),
            old(self)@.open.len() > 0,
        ensures
            final(self).wf(),
            !final(self).draining(),
            final(self)@ == old(self)@.end_with_error(),
    {
        let ghost before = *self;
        let at = self.open_begins[self.open_begins.len() - 1];
        proof {
            let last = before@.open.len() - 1;
            assert(before@.open[last] == at as int);
            assert(before@.events[before@.open[last]] is Begin);
        }
        self.open_begins.pop();
        self.events.set(at, Event::Begin(SyntaxKind::ERROR));
        self.events.push(Event::End(SyntaxKind::ERROR));
        proof {
            assert(self@ =~= before@.end_with_error());
            before@.lemma_end();
        }
    }

    /// Takes the first event out of the stream, if there is one.
    pub fn pop(&mut self) -> (event: Option<Event>)
        requires
            old(self).wf(),
            old(self)@.open.len() == 0,
        ensures
            final(self).wf(),
            final(self)@.open.len() == 0,
            match event {
                Some(event) => {
                    &&& old(self)@.events.len() > 0
                    &&& event@ == old(self)@.events[0]
                    &&& final(self)@.events == old(self)@.events.drop_first()
                },
                None => old(self)@.events.len() == 0 && final(self)@ == old(self)@,
            },
    {
        let ghost before = *self;
        if self.taken >= self.events.len() {
            return None;
        }
        let mut event = Event::End(SyntaxKind::ERROR);
        let at = self.taken;
        std::mem::swap(&mut event, &mut self.events[at]);
        self.taken = self.taken + 1;
        proof {
            assert(before@.events[0] == before.events@[at as int]@);
            assert(views(self.events@.skip(self.taken as int)) =~= before@.events.drop_first());
        }
        if self.taken == self.events.len() {
            self.events.clear();
            self.taken = 0;
            assert(views(self.events@.skip(self.taken as int)) =~= before@.events.drop_first());
        }
        Some(event)
    }

    /// Remembers the current end of the stream.
    pub fn bookmark(&self) -> (bookmark: Bookmark)
        requires
            self.wf(),
            !self.draining(),
        ensures
            bookmark.len() == self@.events.len(),
    {
        Bookmark(self.events.len())
    }

    /// Drops the events that were added after the bookmark was made.
    pub fn truncate(&mut self, bookmark: &Bookmark)
        requires
            old(self).wf(),
            !old(self).draining(),
            bookmark.len() <= old(self)@.events.len(),
        ensures
            final(self).wf(),
            !final(self).draining(),
            final(self)@ == old(self)@.truncate(bookmark.len()),
    {
        let ghost before = *self;
        let len = bookmark.0;
        while self.open_begins.len() > 0 && self.open_begins[self.open_begins.len() - 1] >= len
            invariant
                self.events == before.events,
                self.taken == before.taken == 0,
                before.wf(),
                self.open_begins@.len() <= before.open_begins@.len(),
                self.open_begins@ == before.open_begins@.take(self.open_begins@.len() as int),
                kept(self@.open, len as int) == kept(before@.open, len as int),
            decreases self.open_begins@.len(),
        {
            let ghost open = self@.open;
            self.open_begins.pop();
            proof {
                assert(self@.open =~= open.drop_last());
                assert(self.open_begins@ =~= before.open_begins@.take(
                    self.open_begins@.len() as int,
                ));
            }
        }
        let ghost popped = *self;
        self.events.truncate(len);
        proof {
            assert(self@.open == kept(popped@.open, len as int));
            assert(self@ =~= before@.truncate(len as int));
            before@.lemma_truncate(len as int);
        }
    }
}

} // verus!
