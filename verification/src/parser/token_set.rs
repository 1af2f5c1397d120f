//! The sets of tokens that the parser looks for.

use crate::grammar;
use crate::state::{add_texts, is_token_set, kind_in, text_of};
use crate::syntax_kind::{token_id_of, SyntaxKind};
use crate::token::{Token, TokenId};
use vstd::prelude::*;

verus! {

/// A set of tokens, represented by a list of their kinds.
pub struct TokenSet<'a>(pub &'a [SyntaxKind]);

impl View for TokenSet<'_> {
    type V = Seq<SyntaxKind>;

    open spec fn view(&self) -> Seq<SyntaxKind> {
        self.0@
    }
}

/// Returns the list with the given kind only.
pub fn just(kind: SyntaxKind) -> (kinds: [SyntaxKind; 1])
    requires
        token_id_of(kind) is Some,
    ensures
        kinds@ == seq![kind],
        is_token_set(kinds@),
{
    proof {
        reveal(is_token_set);
    }
    let kinds = [kind];
    assert(kinds@[0] == kind);
    assert(kinds@ =~= seq![kind]);
    kinds
}

/// Returns the list with the two given kinds.
pub fn either(first: SyntaxKind, second: SyntaxKind) -> (kinds: [SyntaxKind; 2])
    requires
        token_id_of(first) is Some,
        token_id_of(second) is Some,
    ensures
        kinds@ == seq![first, second],
        is_token_set(kinds@),
{
    proof {
        reveal(is_token_set);
    }
    let kinds = [first, second];
    assert(kinds@[0] == first && kinds@[1] == second);
    assert(kinds@ =~= seq![first, second]);
    kinds
}

/// Returns the list with the three given kinds.
pub fn any_of(first: SyntaxKind, second: SyntaxKind, third: SyntaxKind) -> (kinds: [SyntaxKind; 3])
    requires
        token_id_of(first) is Some,
        token_id_of(second) is Some,
        token_id_of(third) is Some,
    ensures
        kinds@ == seq![first, second, third],
        is_token_set(kinds@),
{
    proof {
        reveal(is_token_set);
    }
    let kinds = [first, second, third];
    assert(kinds@[0] == first && kinds@[1] == second && kinds@[2] == third);
    assert(kinds@ =~= seq![first, second, third]);
    kinds
}

/// Returns the list of the pattern modifiers without arguments.
pub fn plain_mods() -> (kinds: [SyntaxKind; 5])
    ensures
        kinds@ == seq![
            SyntaxKind::ASCII_KW,
            SyntaxKind::WIDE_KW,
            SyntaxKind::NOCASE_KW,
            SyntaxKind::PRIVATE_KW,
            SyntaxKind::FULLWORD_KW,
        ],
        is_token_set(kinds@),
{
    proof {
        reveal(is_token_set);
    }
    [
        SyntaxKind::ASCII_KW,
        SyntaxKind::WIDE_KW,
        SyntaxKind::NOCASE_KW,
        SyntaxKind::PRIVATE_KW,
        SyntaxKind::FULLWORD_KW,
    ]
}

/// Returns the list of the operators that compare two expressions.
pub fn comparison_ops() -> (kinds: [SyntaxKind; 13])
    ensures
        kinds@ == grammar::comparison_ops(),
        is_token_set(kinds@),
{
    proof {
        reveal(is_token_set);
        reveal(grammar::comparison_ops);
    }
    [
        SyntaxKind::EQ,
        SyntaxKind::NE,
        SyntaxKind::LE,
        SyntaxKind::LT,
        SyntaxKind::GE,
        SyntaxKind::GT,
        SyntaxKind::CONTAINS_KW,
        SyntaxKind::ICONTAINS_KW,
        SyntaxKind::STARTSWITH_KW,
        SyntaxKind::ISTARTSWITH_KW,
        SyntaxKind::ENDSWITH_KW,
        SyntaxKind::IENDSWITH_KW,
        SyntaxKind::MATCHES_KW,
    ]
}

/// Returns the list of the operators that combine two terms.
pub fn term_ops() -> (kinds: [SyntaxKind; 12])
    ensures
        kinds@ == grammar::term_ops(),
        is_token_set(kinds@),
{
    proof {
        reveal(is_token_set);
        reveal(grammar::term_ops);
    }
    [
        SyntaxKind::ADD,
        SyntaxKind::SUB,
        SyntaxKind::MUL,
        SyntaxKind::DIV,
        SyntaxKind::MOD,
        SyntaxKind::SHL,
        SyntaxKind::SHR,
        SyntaxKind::BITWISE_AND,
        SyntaxKind::BITWISE_OR,
        SyntaxKind::BITWISE_XOR,
        SyntaxKind::BITWISE_NOT,
        SyntaxKind::DOT,
    ]
}

/// Returns the list of the literals, with the keywords that stand for a number.
pub fn literals() -> (kinds: [SyntaxKind; 6])
    ensures
        kinds@ == seq![
            SyntaxKind::FLOAT_LIT,
            SyntaxKind::INTEGER_LIT,
            SyntaxKind::STRING_LIT,
            SyntaxKind::REGEXP,
            SyntaxKind::FILESIZE_KW,
            SyntaxKind::ENTRYPOINT_KW,
        ],
        is_token_set(kinds@),
{
    proof {
        reveal(is_token_set);
    }
    [
        SyntaxKind::FLOAT_LIT,
        SyntaxKind::INTEGER_LIT,
        SyntaxKind::STRING_LIT,
        SyntaxKind::REGEXP,
        SyntaxKind::FILESIZE_KW,
        SyntaxKind::ENTRYPOINT_KW,
    ]
}

/// A kind that is not the first of the set is looked for in the rest of it.
proof fn lemma_kind_in(set: Seq<SyntaxKind>, id: TokenId, i: int)
    requires
        0 <= i <= set.len(),
        forall|j: int| 0 <= j < i ==> token_id_of(#[trigger] set[j]) != Some(id),
    ensures
        kind_in(set, id) == kind_in(set.skip(i), id),
    decreases i,
{
    if i == 0 {
        assert(set.skip(0) =~= set);
    } else {
        lemma_kind_in(set, id, i - 1);
        assert(set.skip(i - 1).drop_first() =~= set.skip(i));
    }
}

impl TokenSet<'_> {
    /// Returns true if the set is empty.
    pub fn is_empty(&self) -> (yes: bool)
        ensures
            yes == (self@.len() == 0),
    {
        self.0.len() == 0
    }

    /// If the set contains the given token, returns the kind in the set that
    /// corresponds to it.
    pub fn contains(&self, token: &Token) -> (kind: Option<SyntaxKind>)
        ensures
            kind == kind_in(self@, token.id),
    {
        let mut i: usize = 0;
        while i < self.0.len()
            invariant
                i <= self@.len(),
                forall|j: int|
                    0 <= j < i ==> token_id_of(#[trigger] self@[j]) != Some(token.id),
            decreases self@.len() - i,
        {
            let kind = self.0[i];
            if let Some(id) = kind.token_id() {
                if id == token.id {
                    proof {
                        lemma_kind_in(self@, token.id, i as int);
                    }
                    return Some(kind);
                }
            }
            i += 1;
        }
        proof {
            lemma_kind_in(self@, token.id, i as int);
        }
        None
    }

    /// Returns the identifiers of the tokens in the set.
    pub fn token_ids(&self) -> (ids: Vec<TokenId>)
        requires
            is_token_set(self@),
        ensures
            ids@.len() == self@.len(),
            forall|i: int|
                0 <= i < ids@.len() ==> Some(#[trigger] ids@[i]) == token_id_of(self@[i]),
    {
        proof {
            reveal(is_token_set);
        }
        let mut ids: Vec<TokenId> = Vec::new();
        let mut i: usize = 0;
        while i < self.0.len()
            invariant
                i <= self@.len(),
                ids@.len() == i,
                forall|j: int| 0 <= j < self@.len() ==> token_id_of(#[trigger] self@[j]) is Some,
                forall|j: int|
                    0 <= j < i ==> Some(#[trigger] ids@[j]) == token_id_of(self@[j]),
            decreases self@.len() - i,
        {
            assert(token_id_of(self@[i as int]) is Some);
            if let Some(id) = self.0[i].token_id() {
                ids.push(id);
            }
            i += 1;
        }
        ids
    }
}

/// Adding the texts of a set one by one.
pub proof fn lemma_add_texts(texts: Seq<Seq<char>>, set: Seq<SyntaxKind>)
    requires
        set.len() > 0,
    ensures
        add_texts(texts, set) == crate::collections::add_text(
            add_texts(texts, set.drop_last()),
            text_of(set.last()),
        ),
        add_texts(texts, set).len() > 0,
    decreases set.len(),
{
    let next = crate::collections::add_text(texts, text_of(set[0]));
    if set.len() == 1 {
        assert(set.drop_first() =~= Seq::empty());
        assert(set.drop_last() =~= Seq::empty());
    } else {
        lemma_add_texts(next, set.drop_first());
        assert(set.drop_first().drop_last() =~= set.drop_last().drop_first());
    }
}

} // verus!
