//! What is outside of the error nodes in a whole file.

use crate::event::EventView;
use crate::grammar;
use crate::grammar::{production, Expr};
use crate::item::{after_next, events_from, events_of, parses_item, parses_next};
use crate::laws::frame::{lemma_take, lemma_trivia};
use crate::laws::items::{lemma_after_next, lemma_next};
use crate::laws::valid::{
    cut, derives, is_trivia_kind, lemma_eval_shows, lemma_shows_close, lemma_shows_flush,
    lemma_shows_more, lemma_shows_same, lemma_shows_take, lemma_shows_trivia, lemma_tidy_cat,
    lemma_tidy_node, lemma_tidy_none, lemma_tidy_one, outside, shows, tidy, Shown,
};
use crate::laws::whole::{derives_whole, has_error, lemma_local_whole, lemma_whole_rule};
use crate::message::expecting_item;
use crate::semantics::{eval, parses};
use crate::state::State;
use crate::syntax_kind::{kind_of, SyntaxKind};
use crate::token::{description_of, TokenId};
use crate::token_stream::token_after;
use vstd::prelude::*;

verus! {

/// The events are those of an import statement or a rule declaration. In a rule,
/// what stands before a point of recovery may have been cut short.
pub open spec fn is_item(events: Seq<EventView>) -> bool {
    exists|depth: nat|
        #![trigger derives(Expr::Rule(SyntaxKind::IMPORT_STMT), events, depth)]
        #![trigger derives(Expr::Rule(SyntaxKind::RULE_DECL), events, depth)]
        derives(Expr::Rule(SyntaxKind::IMPORT_STMT), events, depth) || derives(
            Expr::Rule(SyntaxKind::RULE_DECL),
            events,
            depth,
        )
}

/// The events are those of an import statement or a rule declaration, from the
/// first part of it to the last one.
pub open spec fn is_whole_item(events: Seq<EventView>) -> bool {
    exists|depth: nat|
        #![trigger derives_whole(Expr::Rule(SyntaxKind::IMPORT_STMT), events, depth)]
        #![trigger derives_whole(Expr::Rule(SyntaxKind::RULE_DECL), events, depth)]
        derives_whole(Expr::Rule(SyntaxKind::IMPORT_STMT), events, depth) || derives_whole(
            Expr::Rule(SyntaxKind::RULE_DECL),
            events,
            depth,
        )
}

/// None of the events is an error.
pub open spec fn faultless(events: Seq<EventView>) -> bool {
    forall|i: int| 0 <= i < events.len() ==> !(#[trigger] events[i] is Error)
}

/// None of the events starts an error node.
pub open spec fn without_error_nodes(events: Seq<EventView>) -> bool {
    forall|i: int|
        0 <= i < events.len() ==> #[trigger] events[i] != EventView::Begin(SyntaxKind::ERROR)
}

/// The events that are neither trivia nor errors.
pub open spec fn relevant(events: Seq<EventView>) -> Seq<EventView>
    decreases events.len(),
{
    if events.len() == 0 {
        Seq::empty()
    } else {
        let before = relevant(events.drop_last());
        match events.last() {
            EventView::Token(kind, _) => if is_trivia_kind(kind) {
                before
            } else {
                before.push(events.last())
            },
            EventView::Error(_, _) => before,
            event => before.push(event),
        }
    }
}

/// The events for a section of a source. What they show, if they show anything,
/// is an item, and it is whole if there is no error among them.
pub open spec fn is_section(events: Seq<EventView>) -> bool {
    outside(events).len() > 0 ==> {
        &&& is_item(outside(events))
        &&& faultless(events) ==> is_whole_item(outside(events))
    }
}

/// What each of some sections shows, one after another.
pub open spec fn shown_by(sections: Seq<Seq<EventView>>) -> Seq<EventView> {
    sections.map_values(|section: Seq<EventView>| outside(section)).flatten()
}

/// What is within the node of a whole file.
pub open spec fn in_file(events: Seq<EventView>) -> Seq<EventView> {
    seq![EventView::Begin(SyntaxKind::SOURCE_FILE)] + events + seq![
        EventView::End(SyntaxKind::SOURCE_FILE),
    ]
}

/// The events for a whole file are those of the sections, one after another, and
/// what they show is what the sections show.
pub open spec fn has_sections(events: Seq<EventView>, sections: Seq<Seq<EventView>>) -> bool {
    &&& events == in_file(sections.flatten())
    &&& outside(events) == in_file(shown_by(sections))
    &&& forall|i: int| 0 <= i < sections.len() ==> is_section(#[trigger] sections[i])
}

/// The events are those of a file with whole items.
pub open spec fn is_whole_file(events: Seq<EventView>) -> bool {
    exists|items: Seq<Seq<EventView>>|
        #![trigger items.flatten()]
        events == in_file(items.flatten()) && forall|i: int|
            0 <= i < items.len() ==> is_whole_item(#[trigger] items[i])
}

/// The events are those of some items, one after another.
pub open spec fn are_items(events: Seq<EventView>) -> bool {
    exists|items: Seq<Seq<EventView>>|
        #[trigger] items.flatten() == events && forall|i: int|
            0 <= i < items.len() ==> is_item(#[trigger] items[i])
}

proof fn lemma_no_items()
    ensures
        are_items(Seq::empty()),
{
    let items = Seq::<Seq<EventView>>::empty();
    assert(items.flatten() == Seq::<EventView>::empty());
}

/// One more item in front of others.
proof fn lemma_one_item(item: Seq<EventView>, others: Seq<EventView>)
    requires
        is_item(item),
        are_items(others),
    ensures
        are_items(item + others),
{
    let items = choose|items: Seq<Seq<EventView>>|
        #[trigger] items.flatten() == others && forall|i: int|
            0 <= i < items.len() ==> is_item(#[trigger] items[i]);
    let all = seq![item] + items;
    assert(all.first() == item);
    assert(all.drop_first() =~= items);
    assert(all.flatten() =~= item + others);
    assert forall|i: int| 0 <= i < all.len() implies is_item(#[trigger] all[i]) by {
        if i > 0 {
            assert(all[i] == items[i - 1]);
        }
    }
}

/// One more section in front of others.
proof fn lemma_one_section(section: Seq<EventView>, others: Seq<Seq<EventView>>)
    ensures
        (seq![section] + others).flatten() == section + others.flatten(),
        shown_by(seq![section] + others) == outside(section) + shown_by(others),
{
    let all = seq![section] + others;
    assert(all.first() == section);
    assert(all.drop_first() =~= others);
    let show = |section: Seq<EventView>| outside(section);
    assert(all.map_values(show).first() == outside(section));
    assert(all.map_values(show).drop_first() =~= others.map_values(show));
}

/// Sections without errors show whole items.
proof fn lemma_whole_sections(sections: Seq<Seq<EventView>>) -> (items: Seq<Seq<EventView>>)
    requires
        forall|i: int| 0 <= i < sections.len() ==> is_section(#[trigger] sections[i]),
        faultless(sections.flatten()),
    ensures
        items.flatten() == shown_by(sections),
        forall|i: int| 0 <= i < items.len() ==> is_whole_item(#[trigger] items[i]),
    decreases sections.len(),
{
    if sections.len() == 0 {
        assert(shown_by(sections) =~= Seq::empty());
        Seq::empty()
    } else {
        let section = sections[0];
        let others = sections.drop_first();
        let events = sections.flatten();
        lemma_one_section(section, others);
        assert(sections =~= seq![section] + others);
        assert forall|i: int| 0 <= i < section.len() implies !(#[trigger] section[i] is Error) by {
            assert(events[i] == section[i]);
        }
        assert forall|i: int| 0 <= i < others.flatten().len() implies !(
        #[trigger] others.flatten()[i] is Error) by {
            assert(events[section.len() + i] == others.flatten()[i]);
        }
        assert forall|i: int| 0 <= i < others.len() implies is_section(#[trigger] others[i]) by {
            assert(sections[i + 1] == others[i]);
        }
        let items = lemma_whole_sections(others);
        if outside(section).len() == 0 {
            assert(outside(section) + items.flatten() =~= items.flatten());
            items
        } else {
            let all = seq![outside(section)] + items;
            assert(is_section(sections[0]));
            assert(all.first() == outside(section));
            assert(all.drop_first() =~= items);
            assert forall|i: int| 0 <= i < all.len() implies is_whole_item(#[trigger] all[i]) by {
                if i > 0 {
                    assert(all[i] == items[i - 1]);
                }
            }
            all
        }
    }
}

/// Parsing the production of an item shows it, or nothing.
proof fn lemma_item_shows(kind: SyntaxKind, s: State, t: State) -> (shown: Seq<EventView>)
    requires
        s.placed(),
        !s.failed,
        !s.in_opt,
        !s.in_not,
        kind == SyntaxKind::IMPORT_STMT || kind == SyntaxKind::RULE_DECL,
        parses(Expr::Rule(kind), s, t),
    ensures
        shows(s, t, shown),
        shown.len() == 0 || is_item(shown),
        shown.len() == 0 || has_error(t.out.events, s.out.events.len() as int) || is_whole_item(
            shown,
        ),
{
    let depth = choose|depth: nat| #[trigger] eval(Expr::Rule(kind), s, depth) == Some(t);
    let shown = lemma_eval_shows(Expr::Rule(kind), s, depth);
    if t.failed {
        reveal(cut);
        reveal(production);
        reveal(grammar::import_stmt);
        reveal(grammar::rule_decl);
        assert(cut(production(kind), shown, (depth - 1) as nat));
    } else if kind == SyntaxKind::IMPORT_STMT {
        lemma_local_whole(Expr::Rule(kind), shown, depth);
    } else if !has_error(t.out.events, s.out.events.len() as int) {
        lemma_whole_rule(s, t);
    }
    shown
}

/// Rejecting a token shows nothing.
proof fn lemma_reject_shows(s: State)
    requires
        s.placed(),
        token_after(s.src, s.cursor) is Some,
    ensures
        shows(s, s.reject(token_after(s.src, s.cursor)->0), Seq::empty()),
{
    let none = Seq::<EventView>::empty();
    let token = token_after(s.src, s.cursor)->0;
    let error = EventView::Error(expecting_item(description_of(token.id)), token.span);
    let reported = State { out: s.out.push(error), ..s };
    s.out.lemma_push(error);
    let begun = State { out: reported.out.begin(SyntaxKind::ERROR), ..reported };
    reported.out.lemma_begin(SyntaxKind::ERROR);
    let kind = kind_of(token.id);
    lemma_take(begun, kind);
    lemma_shows_take(begun, kind);
    let taken = begun.bump();
    lemma_shows_close(
        reported,
        SyntaxKind::ERROR,
        taken,
        outside(taken.out.events.skip(begun.out.events.len() as int)),
    );
    let closed = State { out: taken.out.end(), ..taken };
    let n = s.out.events.len() as int;
    assert(reported.out.events.take(n) =~= s.out.events);
    assert(reported.out.events.skip(n) =~= seq![error]);
    lemma_tidy_one(error);
    lemma_shows_more(s, reported, closed, none);
    lemma_shows_same(closed, s.reject(token));
    lemma_shows_more(s, closed, s.reject(token), none);
}

/// Parsing what is next shows an item, or nothing.
proof fn lemma_next_shows(s: State, t: State) -> (shown: Seq<EventView>)
    requires
        s.placed(),
        !s.failed,
        !s.in_opt,
        !s.in_not,
        parses_next(s, t),
    ensures
        shows(s, t, shown),
        shown.len() == 0 || is_item(shown),
        shown.len() == 0 || has_error(t.out.events, s.out.events.len() as int) || is_whole_item(
            shown,
        ),
{
    let none = Seq::<EventView>::empty();
    let trimmed = s.trivia();
    let u = choose|u: State| #[trigger] parses_item(trimmed, u) && t == u.leave_item();
    lemma_trivia(s);
    lemma_shows_trivia(s);
    let shown = match token_after(trimmed.src, trimmed.cursor) {
        None => {
            lemma_shows_same(trimmed, u);
            none
        },
        Some(token) => match token.id {
            TokenId::IMPORT_KW => lemma_item_shows(SyntaxKind::IMPORT_STMT, trimmed, u),
            TokenId::GLOBAL_KW | TokenId::PRIVATE_KW | TokenId::RULE_KW => lemma_item_shows(
                SyntaxKind::RULE_DECL,
                trimmed,
                u,
            ),
            _ => {
                lemma_reject_shows(trimmed);
                none
            },
        },
    };
    lemma_shows_more(s, trimmed, u, shown);
    lemma_shows_flush(u);
    lemma_shows_more(s, u, u.flush_errors(), shown);
    lemma_shows_same(u.flush_errors(), t);
    lemma_shows_more(s, u.flush_errors(), t, shown);
    let n = s.out.events.len() as int;
    let m = trimmed.out.events.len() as int;
    if has_error(u.out.events, m) {
        let i = choose|i: int| m <= i < u.out.events.len() && (#[trigger] u.out.events[i])
            is Error;
        assert(t.out.events[i] == u.out.events[i]);
    }
    shown
}

/// What is outside of the error nodes in the rest of a source.
proof fn lemma_rest_shows(s: State) -> (sections: Seq<Seq<EventView>>)
    requires
        s.placed(),
        !s.failed,
        !s.in_opt,
        !s.in_not,
        s.out.events.len() == 0,
        s.out.open.len() == 0,
    ensures
        tidy(events_from(s)),
        are_items(outside(events_from(s))),
        events_from(s) == sections.flatten(),
        outside(events_from(s)) == shown_by(sections),
        forall|i: int| 0 <= i < sections.len() ==> is_section(#[trigger] sections[i]),
    decreases s.rest(),
{
    let t = after_next(s);
    let none = Seq::<Seq<EventView>>::empty();
    lemma_tidy_none();
    lemma_no_items();
    assert(none.flatten() =~= Seq::empty());
    assert(shown_by(none) =~= Seq::empty());
    if s.cursor.pos < s.src.len() {
        lemma_after_next(s);
        lemma_next(s, t);
        let shown = lemma_next_shows(s, t);
        let section = t.out.events;
        assert(section.skip(0) =~= section);
        let next = t.drained();
        let others = lemma_rest_shows(next);
        let sections = seq![section] + others;
        lemma_tidy_cat(section, events_from(next));
        lemma_one_section(section, others);
        if shown.len() == 0 {
            assert(shown + outside(events_from(next)) =~= outside(events_from(next)));
        } else {
            lemma_one_item(shown, outside(events_from(next)));
        }
        assert forall|i: int| 0 <= i < sections.len() implies is_section(
            #[trigger] sections[i],
        ) by {
            if i > 0 {
                assert(sections[i] == others[i - 1]);
            }
        }
        sections
    } else {
        none
    }
}

/// Whatever the source is, what the parser produces for it is, outside of error
/// nodes and trivia aside, a source file with import statements and rule
/// declarations. They are as the grammar describes them, but for what has been
/// cut short before a point of recovery. An item among whose events there is no
/// error is whole.
pub proof fn lemma_valid_file(src: Seq<u8>)
    requires
        src.len() <= usize::MAX,
    ensures
        exists|items: Seq<EventView>|
            #[trigger] are_items(items) && outside(events_of(src)) == in_file(items),
        exists|sections: Seq<Seq<EventView>>| has_sections(events_of(src), sections),
{
    let s = State::initial(src);
    let sections = lemma_rest_shows(s);
    lemma_tidy_node(SyntaxKind::SOURCE_FILE, events_from(s));
    assert(are_items(outside(events_from(s))));
    assert(has_sections(events_of(src), sections));
}

/// A source for which no error is reported is, outside of error nodes and trivia
/// aside, a file with whole items.
pub proof fn lemma_whole_file(src: Seq<u8>)
    requires
        src.len() <= usize::MAX,
        faultless(events_of(src)),
    ensures
        is_whole_file(outside(events_of(src))),
{
    lemma_valid_file(src);
    let events = events_of(src);
    let sections = choose|sections: Seq<Seq<EventView>>| has_sections(events, sections);
    assert forall|i: int| 0 <= i < sections.flatten().len() implies !(
    #[trigger] sections.flatten()[i] is Error) by {
        assert(events[i + 1] == sections.flatten()[i]);
    }
    let items = lemma_whole_sections(sections);
    assert(outside(events) == in_file(items.flatten()));
}

/// Where there are no error nodes, nothing but trivia and errors is left out of
/// what is outside of them.
pub proof fn lemma_all_outside(events: Seq<EventView>)
    requires
        without_error_nodes(events),
    ensures
        outside(events) == relevant(events),
{
    lemma_all_shown(events);
}

proof fn lemma_all_shown(events: Seq<EventView>)
    requires
        without_error_nodes(events),
    ensures
        (Shown { events: Seq::empty(), hidden: 0 }).all(events) == (Shown {
            events: relevant(events),
            hidden: 0,
        }),
    decreases events.len(),
{
    if events.len() > 0 {
        assert forall|i: int| 0 <= i < events.drop_last().len() implies #[trigger] events.drop_last(
        )[i] != EventView::Begin(SyntaxKind::ERROR) by {
            assert(events[i] == events.drop_last()[i]);
        }
        lemma_all_shown(events.drop_last());
        assert(events[events.len() - 1] == events.last());
    }
}

} // verus!
