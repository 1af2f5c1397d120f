//! Concrete syntax trees.

use crate::event::{Event, EventView};
use crate::item::{events_from, events_of};
use crate::laws::file::{
    are_items, faultless, has_sections, in_file, is_whole_file, lemma_all_outside,
    lemma_valid_file, lemma_whole_file, relevant, shown_by, without_error_nodes,
};
use crate::laws::items::{lemma_complete_file, lemma_events_from};
use crate::laws::shape::{covered, lemma_opened, opened};
use crate::laws::valid::{lemma_all, outside, Shown};
use crate::parser::{is_whitespace, selected, without_whitespaces, Parser};
use crate::span::Span;
use crate::state::State;
use crate::syntax_kind::SyntaxKind;
use vstd::prelude::*;

verus! {

/// A node of the tree.
pub struct Node {
    /// The kind of the node.
    pub kind: SyntaxKind,
    /// What is in the node.
    pub children: Vec<Element>,
}

/// A node or a token of the tree.
pub enum Element {
    Node(Node),
    Token { kind: SyntaxKind, span: Span },
}

/// An error found in the source code.
#[derive(Debug, PartialEq, Eq)]
pub struct SyntaxError {
    /// What is wrong.
    pub message: String,
    /// Where it is.
    pub span: Span,
}

impl Node {
    /// The events that describe the node.
    pub open spec fn events(self) -> Seq<EventView>
        decreases self,
    {
        seq![EventView::Begin(self.kind)] + events_of_all(self.children@) + seq![
            EventView::End(self.kind),
        ]
    }
}

impl Element {
    /// The events that describe the element.
    pub open spec fn events(self) -> Seq<EventView>
        decreases self,
    {
        match self {
            Element::Node(node) => node.events(),
            Element::Token { kind, span } => seq![EventView::Token(kind, span)],
        }
    }
}

/// The events that describe some elements, one after another.
pub open spec fn events_of_all(elements: Seq<Element>) -> Seq<EventView>
    decreases elements,
{
    if elements.len() == 0 {
        Seq::empty()
    } else {
        events_of_all(elements.drop_last()) + elements.last().events()
    }
}

/// The events that are not errors.
pub open spec fn without_errors(events: Seq<EventView>) -> Seq<EventView>
    decreases events.len(),
{
    if events.len() == 0 {
        Seq::empty()
    } else {
        let before = without_errors(events.drop_last());
        match events.last() {
            EventView::Error(_, _) => before,
            event => before.push(event),
        }
    }
}

/// The errors among some events, in order.
pub open spec fn errors_in(events: Seq<EventView>) -> Seq<(Seq<char>, Span)>
    decreases events.len(),
{
    if events.len() == 0 {
        Seq::empty()
    } else {
        let before = errors_in(events.drop_last());
        match events.last() {
            EventView::Error(message, span) => before.push((message, span)),
            _ => before,
        }
    }
}

/// What some errors say, and where they are.
pub open spec fn views_of_errors(errors: Seq<SyntaxError>) -> Seq<(Seq<char>, Span)> {
    errors.map_values(|error: SyntaxError| (error.message@, error.span))
}

/// A concrete syntax tree.
pub struct CST {
    root: Node,
    errors: Vec<SyntaxError>,
}

/// The kinds of some nodes.
spec fn kinds_of(nodes: Seq<Node>) -> Seq<SyntaxKind> {
    nodes.map_values(|node: Node| node.kind)
}

/// The events that describe some nodes that have not ended yet, each of which
/// is within the one before it.
spec fn events_of_open(nodes: Seq<Node>) -> Seq<EventView>
    decreases nodes.len(),
{
    if nodes.len() == 0 {
        Seq::empty()
    } else {
        events_of_open(nodes.drop_last()) + seq![EventView::Begin(nodes.last().kind)]
            + events_of_all(nodes.last().children@)
    }
}

/// A node with one child more.
proof fn lemma_child(nodes: Seq<Node>, node: Node, child: Element)
    requires
        nodes.len() > 0,
        node.kind == nodes.last().kind,
        node.children@ == nodes.last().children@.push(child),
    ensures
        events_of_open(nodes.drop_last().push(node)) == events_of_open(nodes) + child.events(),
        kinds_of(nodes.drop_last().push(node)) == kinds_of(nodes),
{
    let next = nodes.drop_last().push(node);
    assert(next.drop_last() =~= nodes.drop_last());
    assert(node.children@.drop_last() =~= nodes.last().children@);
    assert(events_of_open(next) =~= events_of_open(nodes) + child.events());
    assert(kinds_of(next) =~= kinds_of(nodes));
}

/// Some open nodes do not depend on those that were open before.
proof fn lemma_under(
    events: Seq<EventView>,
    outer: Seq<SyntaxKind>,
    before: Seq<SyntaxKind>,
)
    requires
        opened(events, before) is Some,
    ensures
        opened(events, outer + before) == Some(outer + opened(events, before)->0),
    decreases events.len(),
{
    if events.len() > 0 {
        lemma_under(events.drop_last(), outer, before);
        let kinds = opened(events.drop_last(), before)->0;
        assert(opened(events.drop_last(), outer + before) == Some(outer + kinds));
        match events.last() {
            EventView::Begin(kind) => {
                assert((outer + kinds).push(kind) =~= outer + kinds.push(kind));
            },
            EventView::End(kind) => {
                assert((outer + kinds).last() == kinds.last());
                assert((outer + kinds).drop_last() =~= outer + kinds.drop_last());
            },
            _ => {},
        }
    }
}

/// The events describe one node.
spec fn is_tree(events: Seq<EventView>) -> bool {
    &&& opened(events, Seq::empty()) == Some(Seq::<SyntaxKind>::empty())
    &&& events.len() > 0
    &&& events[0] is Begin
    &&& forall|i: int|
        0 < i < events.len() ==> (opened(#[trigger] events.take(i), Seq::empty()) matches Some(
            kinds,
        ) && kinds.len() > 0)
}

/// A node around whole nodes is a tree.
proof fn lemma_is_tree(kind: SyntaxKind, inner: Seq<EventView>)
    requires
        forall|before: Seq<SyntaxKind>| #[trigger] opened(inner, before) == Some(before),
    ensures
        is_tree(seq![EventView::Begin(kind)] + inner + seq![EventView::End(kind)]),
{
    let none = Seq::<SyntaxKind>::empty();
    let begin = seq![EventView::Begin(kind)];
    let end = seq![EventView::End(kind)];
    let all = begin + inner + end;
    assert(begin.drop_last() =~= Seq::empty());
    assert(end.drop_last() =~= Seq::empty());
    assert(opened(begin.drop_last(), none) == Some(none));
    assert(opened(begin, none) == Some(none.push(kind)));
    assert forall|i: int| 0 < i < all.len() implies (opened(
        #[trigger] all.take(i),
        none,
    ) matches Some(kinds) && kinds.len() > 0) by {
        let part = inner.take(i - 1);
        assert(all.take(i) =~= begin + part);
        assert(inner =~= part + inner.skip(i - 1));
        lemma_opened(part, inner.skip(i - 1), none);
        assert(opened(inner, none) == Some(none));
        lemma_under(part, none.push(kind), none);
        assert(none.push(kind) + none =~= none.push(kind));
        lemma_opened(begin, part, none);
    }
    lemma_opened(begin + inner, end, none);
    lemma_opened(begin, inner, none);
    assert(opened(inner, none.push(kind)) == Some(none.push(kind)));
    assert(opened(end.drop_last(), none.push(kind)) == Some(none.push(kind)));
    assert(none.push(kind).drop_last() =~= none);
}

/// Taking whitespaces out leaves the nodes as they are.
proof fn lemma_nodes_kept(events: Seq<EventView>, before: Seq<SyntaxKind>)
    ensures
        opened(without_whitespaces(events), before) == opened(events, before),
    decreases events.len(),
{
    if events.len() > 0 {
        let first = seq![events[0]];
        let others = events.drop_first();
        assert(events =~= first + others);
        assert(first.drop_last() =~= Seq::empty());
        assert(opened(first.drop_last(), before) == Some(before));
        lemma_opened(first, others, before);
        if is_whitespace(events[0]) {
            assert(opened(first, before) == Some(before));
            lemma_nodes_kept(others, before);
        } else {
            lemma_opened(first, without_whitespaces(others), before);
            if let Some(kinds) = opened(first, before) {
                lemma_nodes_kept(others, kinds);
            }
        }
    }
}

/// What becomes of one event. Without whitespaces, only a token of whitespaces is
/// left out. An error is not in the tree, but in the list of errors, with what it
/// says and where it is. Everything else is in the tree.
pub proof fn law_one_event(event: EventView)
    ensures
        without_whitespaces(seq![event]) == (match event {
            EventView::Token(SyntaxKind::WHITESPACE, _) => Seq::empty(),
            _ => seq![event],
        }),
        without_errors(seq![event]) == (match event {
            EventView::Error(_, _) => Seq::empty(),
            _ => seq![event],
        }),
        errors_in(seq![event]) == (match event {
            EventView::Error(message, span) => seq![(message, span)],
            _ => Seq::empty(),
        }),
{
    let one = seq![event];
    assert(one.drop_first() =~= Seq::empty());
    assert(one.drop_last() =~= Seq::empty());
    assert(without_whitespaces(one.drop_first()) =~= Seq::empty());
    assert(without_errors(one.drop_last()) =~= Seq::empty());
    assert(errors_in(one.drop_last()) =~= Seq::empty());
    assert(seq![event] + Seq::<EventView>::empty() =~= seq![event]);
    assert(Seq::<EventView>::empty().push(event) =~= seq![event]);
}

/// What becomes of some events that are followed by others.
pub proof fn law_events_joined(a: Seq<EventView>, b: Seq<EventView>)
    ensures
        without_whitespaces(a + b) == without_whitespaces(a) + without_whitespaces(b),
        without_errors(a + b) == without_errors(a) + without_errors(b),
        errors_in(a + b) == errors_in(a) + errors_in(b),
    decreases b.len(),
{
    lemma_without_whitespaces(a, b);
    if b.len() == 0 {
        assert(a + b =~= a);
        assert(without_errors(a) + without_errors(b) =~= without_errors(a));
        assert(errors_in(a) + errors_in(b) =~= errors_in(a));
    } else {
        law_events_joined(a, b.drop_last());
        assert((a + b).drop_last() =~= a + b.drop_last());
        assert(without_errors(a + b) =~= without_errors(a) + without_errors(b));
        assert(errors_in(a + b) =~= errors_in(a) + errors_in(b));
    }
}

/// Taking whitespaces out of some events and of others.
proof fn lemma_without_whitespaces(a: Seq<EventView>, b: Seq<EventView>)
    ensures
        without_whitespaces(a + b) == without_whitespaces(a) + without_whitespaces(b),
    decreases a.len(),
{
    if a.len() == 0 {
        assert(a + b =~= b);
        assert(without_whitespaces(a) + without_whitespaces(b) =~= without_whitespaces(b));
    } else {
        lemma_without_whitespaces(a.drop_first(), b);
        assert((a + b).drop_first() =~= a.drop_first() + b);
        assert(without_whitespaces(a + b) =~= without_whitespaces(a) + without_whitespaces(b));
    }
}

/// The events for a source file describe one node, with whitespaces or not.
proof fn lemma_file_is_tree(src: Seq<u8>, whitespaces: bool)
    requires
        src.len() <= usize::MAX,
    ensures
        is_tree(selected(events_of(src), whitespaces)),
{
    let kind = SyntaxKind::SOURCE_FILE;
    let inner = events_from(State::initial(src));
    let begin = seq![EventView::Begin(kind)];
    let end = seq![EventView::End(kind)];
    lemma_events_from(State::initial(src));
    if whitespaces {
        lemma_is_tree(kind, inner);
    } else {
        assert forall|before: Seq<SyntaxKind>| #[trigger]
            opened(without_whitespaces(inner), before) == Some(before) by {
            lemma_nodes_kept(inner, before);
            assert(opened(inner, before) == Some(before));
        }
        lemma_is_tree(kind, without_whitespaces(inner));
        lemma_without_whitespaces(begin + inner, end);
        lemma_without_whitespaces(begin, inner);
        assert(begin.drop_first() =~= Seq::empty());
        assert(end.drop_first() =~= Seq::empty());
        assert(without_whitespaces(begin.drop_first()) =~= Seq::empty());
        assert(without_whitespaces(end.drop_first()) =~= Seq::empty());
        assert(without_whitespaces(begin) =~= begin);
        assert(without_whitespaces(end) =~= end);
    }
}

impl CST {
    /// The root of the tree.
    pub closed spec fn tree(&self) -> Node {
        self.root
    }

    /// The errors, in order.
    pub closed spec fn faults(&self) -> Seq<SyntaxError> {
        self.errors@
    }

    /// The tree is the one that the events describe, with their errors.
    pub open spec fn describes(&self, events: Seq<EventView>) -> bool {
        &&& self.tree().events() == without_errors(events)
        &&& views_of_errors(self.faults()) == errors_in(events)
    }

    /// Builds the tree that the given parser produces.
    pub fn from(parser: Parser<'_>) -> (cst: CST)
        requires
            parser.wf(),
        ensures
            cst.describes(selected(events_of(parser.src()), parser.keeps_whitespaces())),
    {
        let ghost all = selected(events_of(parser.src()), parser.keeps_whitespaces());
        let len = parser.source().len();
        proof {
            assert(parser.src().len() == len);
            lemma_file_is_tree(parser.src(), parser.keeps_whitespaces());
        }
        let mut events = parser.events();
        // The nodes that have not ended yet, the outermost first.
        let mut open: Vec<Node> = Vec::new();
        let mut root = Node { kind: SyntaxKind::SOURCE_FILE, children: Vec::new() };
        let mut errors: Vec<SyntaxError> = Vec::new();
        let ghost mut done = Seq::<EventView>::empty();
        assert(all.take(0) =~= Seq::empty());
        assert(kinds_of(open@) =~= Seq::empty());
        assert(views_of_errors(errors@) =~= Seq::empty());
        loop
            invariant
                events.wf(),
                all == selected(events_of(parser.src()), parser.keeps_whitespaces()),
                is_tree(all),
                done.len() <= all.len(),
                done == all.take(done.len() as int),
                events.remaining() == all.skip(done.len() as int),
                opened(done, Seq::empty()) == Some(kinds_of(open@)),
                views_of_errors(errors@) == errors_in(done),
                done.len() < all.len() ==> events_of_open(open@) == without_errors(done),
                done.len() == all.len() ==> root.events() == without_errors(done),
            decreases events.remaining().len(),
        {
            let ghost before = done;
            let ghost nodes = open@;
            let event = match events.next() {
                Some(event) => event,
                None => {
                    assert(done =~= all);
                    return CST { root, errors };
                },
            };
            proof {
                let n = before.len() as int;
                assert(event@ == all[n]);
                done = all.take(n + 1);
                assert(done.drop_last() =~= before);
                assert(done.last() == event@);
                assert(all.skip(n).drop_first() =~= all.skip(n + 1));
                assert(n > 0 ==> opened(all.take(n), Seq::empty()) is Some);
                assert(n + 1 < all.len() ==> opened(all.take(n + 1), Seq::empty()) is Some);
                if n + 1 == all.len() {
                    assert(done =~= all);
                }
            }
            match event {
                Event::Begin(kind) => {
                    let node = Node { kind, children: Vec::new() };
                    open.push(node);
                    proof {
                        assert(open@.drop_last() =~= nodes);
                        assert(events_of_all(node.children@) =~= Seq::empty());
                        assert(events_of_open(open@) =~= events_of_open(nodes).push(event@));
                        assert(kinds_of(open@) =~= kinds_of(nodes).push(kind));
                    }
                },
                Event::End(kind) => {
                    if let Some(node) = open.pop() {
                        assert(kinds_of(nodes).last() == kind);
                        assert(kinds_of(open@) =~= kinds_of(nodes).drop_last());
                        match open.pop() {
                            Some(mut parent) => {
                                parent.children.push(Element::Node(node));
                                open.push(parent);
                                proof {
                                    lemma_child(nodes.drop_last(), parent, Element::Node(node));
                                    assert(open@ =~= nodes.drop_last().drop_last().push(parent));
                                    assert(events_of_open(open@) =~= events_of_open(nodes).push(
                                        event@,
                                    ));
                                }
                            },
                            None => {
                                proof {
                                    assert(nodes.drop_last() =~= Seq::empty());
                                    assert(node.events() =~= events_of_open(nodes).push(event@));
                                }
                                root = node;
                            },
                        }
                    }
                },
                Event::Token { kind, span } => {
                    if let Some(mut parent) = open.pop() {
                        let child = Element::Token { kind, span };
                        parent.children.push(child);
                        open.push(parent);
                        proof {
                            lemma_child(nodes, parent, child);
                            assert(open@ =~= nodes.drop_last().push(parent));
                            assert(events_of_open(open@) =~= events_of_open(nodes).push(event@));
                        }
                    }
                },
                Event::Error { message, span } => {
                    let ghost was = errors@;
                    errors.push(SyntaxError { message, span });
                    assert(views_of_errors(errors@) =~= views_of_errors(was).push(
                        (message@, span),
                    ));
                },
            }
        }
    }

    /// Returns the root of the tree.
    pub fn root(&self) -> (root: &Node)
        ensures
            *root == self.tree(),
    {
        &self.root
    }

    /// Returns the errors that were found in the source code, in order.
    pub fn errors(&self) -> (errors: &[SyntaxError])
        ensures
            errors@ == self.faults(),
    {
        self.errors.as_slice()
    }
}

/// Errors neither cover anything nor are shown.
proof fn lemma_without_errors(events: Seq<EventView>, from: int, shown: Shown)
    ensures
        covered(without_errors(events), from) == covered(events, from),
        shown.all(without_errors(events)) == shown.all(events),
    decreases events.len(),
{
    if events.len() > 0 {
        let before = without_errors(events.drop_last());
        lemma_without_errors(events.drop_last(), from, shown);
        if !(events.last() is Error) {
            assert(before.push(events.last()).drop_last() =~= before);
        }
    }
}

/// Whitespaces are not shown, and they are no errors.
proof fn lemma_whitespaces(events: Seq<EventView>, shown: Shown)
    ensures
        shown.all(without_whitespaces(events)) == shown.all(events),
        faultless(without_whitespaces(events)) ==> faultless(events),
    decreases events.len(),
{
    if events.len() > 0 {
        let first = seq![events[0]];
        let others = events.drop_first();
        let left = without_whitespaces(others);
        assert(events =~= first + others);
        assert(first.drop_last() =~= Seq::empty());
        assert(shown.all(first.drop_last()) == shown);
        assert(shown.all(first) == shown.next(events[0]));
        lemma_all(shown, first, others);
        lemma_all(shown, first, left);
        lemma_whitespaces(others, shown.all(first));
        if faultless(without_whitespaces(events)) {
            if !is_whitespace(events[0]) {
                assert((first + left)[0] == events[0]);
                assert forall|i: int| 0 <= i < left.len() implies !(#[trigger] left[i]
                    is Error) by {
                    assert((first + left)[i + 1] == left[i]);
                }
            }
            assert forall|i: int| 0 <= i < events.len() implies !(#[trigger] events[i]
                is Error) by {
                if i > 0 {
                    assert(others[i - 1] == events[i]);
                }
            }
        }
    }
}

/// There are no errors among the events if none is in the list of them.
proof fn lemma_no_errors(events: Seq<EventView>)
    requires
        errors_in(events).len() == 0,
    ensures
        faultless(events),
    decreases events.len(),
{
    if events.len() > 0 {
        lemma_no_errors(events.drop_last());
        assert forall|i: int| 0 <= i < events.len() implies !(#[trigger] events[i] is Error) by {
            if i < events.len() - 1 {
                assert(events.drop_last()[i] == events[i]);
            }
        }
    }
}

/// Whatever the source is, its tree is lossless, if it has been asked for with
/// whitespaces: the tokens cover the source from the start to the end, in order
/// and without gaps. With whitespaces or not, what is outside of its error nodes
/// is, trivia aside, a source file with import statements and rule declarations.
/// They are as the grammar describes them, but for what has been cut short before
/// a point of recovery. An item among whose events there is no error is whole.
///
/// If no error was found they are whole, and if there is no error node either,
/// they are all that the tree is made of, trivia aside.
pub proof fn lemma_tree(cst: CST, src: Seq<u8>, whitespaces: bool)
    requires
        src.len() <= usize::MAX,
        cst.describes(selected(events_of(src), whitespaces)),
    ensures
        whitespaces ==> covered(cst.tree().events(), 0) == Some(src.len() as int),
        exists|items: Seq<EventView>|
            #[trigger] are_items(items) && outside(cst.tree().events()) == in_file(items),
        exists|sections: Seq<Seq<EventView>>|
            #[trigger] has_sections(events_of(src), sections) && outside(cst.tree().events())
                == in_file(shown_by(sections)),
        cst.faults().len() == 0 ==> is_whole_file(outside(cst.tree().events())),
        cst.faults().len() == 0 && without_error_nodes(cst.tree().events()) ==> is_whole_file(
            relevant(cst.tree().events()),
        ),
{
    let nothing = Shown { events: Seq::empty(), hidden: 0 };
    lemma_without_errors(selected(events_of(src), whitespaces), 0, nothing);
    lemma_whitespaces(events_of(src), nothing);
    lemma_complete_file(src);
    lemma_valid_file(src);
    if cst.faults().len() == 0 {
        assert(views_of_errors(cst.faults()).len() == 0);
        lemma_no_errors(selected(events_of(src), whitespaces));
        lemma_whole_file(src);
        if without_error_nodes(cst.tree().events()) {
            lemma_all_outside(cst.tree().events());
        }
    }
}

} // verus!
