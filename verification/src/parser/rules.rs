//! Grammar rules.
//!
//! Each function here parses a piece of YARA source code. Usually a function is
//! associated to a non-terminal symbol of the grammar, and its code follows the
//! production for that symbol.
//!
//! Consider this production as an example:
//!
//! ```text
//! A ::= a B ( C | D )
//! ```
//!
//! `A`, `B`, `C` and `D` are non-terminal symbols, while `a` is a terminal one,
//! a token. `A` is expanded as the token `a` followed by `B`, followed by either
//! `C` or `D`. It is written as:
//!
//! ```text
//! self.begin(A);
//! self.expect(a);
//! self.one(B, |p| p.b());
//! let mut alternatives = self.begin_alt();
//! self.alt(&mut alternatives, C, |p| p.c());
//! self.alt(&mut alternatives, D, |p| p.d());
//! self.end_alt(alternatives);
//! self.end_production(A);
//! ```
//!
//! The order of the alternatives is important: the parser tries them one after
//! another and takes the first one that fits. Thus `( a | a B )` is
//! problematic, because `a B` won't ever fit: where it does, `a` does too.
//!
//! A function that is not associated to a symbol stands for the part of a
//! production that has the same name in [`grammar`].

use crate::grammar;
use crate::grammar::{inner_of, production, Expr};
use crate::laws::progress::{consumes, group_shapes, keeps_failure};
use crate::parser::parser_impl::{advances, runs, ParserImpl};
use crate::parser::token_set::{
    any_of, comparison_ops, either, just, literals, plain_mods, term_ops, TokenSet,
};
use crate::semantics::{lemma_cat, lemma_rule};
use crate::syntax_kind::SyntaxKind;
use vstd::prelude::*;

verus! {

broadcast use lemma_cat;

impl<'src> ParserImpl<'src> {
    /// Parses an import statement.
    ///
    /// ```text
    /// IMPORT_STMT ::= `import` STRING_LIT
    /// ```
    pub(crate) fn import_stmt(&mut self)
        requires
            old(self).wf(),
        ensures
            runs(Expr::Rule(SyntaxKind::IMPORT_STMT), *old(self), *final(self)),
            advances(old(self)@, final(self)@),
    {
        let ghost s = self@;
        proof {
            self.lemma_wf();
            reveal(production);
            reveal(grammar::import_stmt);
        }
        self.begin(SyntaxKind::IMPORT_STMT);
        self.expect(&TokenSet(&just(SyntaxKind::IMPORT_KW)));
        self.expect(&TokenSet(&just(SyntaxKind::STRING_LIT)));
        self.end_production(SyntaxKind::IMPORT_STMT, Ghost(s));
    }

    /// Parses what a rule starts with.
    fn rule_header(&mut self)
        requires
            old(self).wf(),
        ensures
            runs(grammar::rule_header(), *old(self), *final(self)),
    {
        proof {
            reveal(grammar::rule_header);
        }
        self.opt(
            Ghost(Expr::Rule(SyntaxKind::RULE_MODS)),
            |p: &mut Self|
                requires
                    p.wf(),
                ensures
                    runs(Expr::Rule(SyntaxKind::RULE_MODS), *old(p), *final(p))
                { p.rule_mods() },
        );
        self.expect(&TokenSet(&just(SyntaxKind::RULE_KW)));
        self.expect(&TokenSet(&just(SyntaxKind::IDENT)));
        self.if_next(
            &TokenSet(&just(SyntaxKind::COLON)),
            Ghost(Expr::Rule(SyntaxKind::RULE_TAGS)),
            |p: &mut Self|
                requires
                    p.wf(),
                ensures
                    runs(Expr::Rule(SyntaxKind::RULE_TAGS), *old(p), *final(p))
                { p.rule_tags() },
        );
    }

    /// Parses the header of a rule, and the blocks that can be left out.
    fn rule_blocks(&mut self)
        requires
            old(self).wf(),
        ensures
            runs(grammar::rule_blocks(), *old(self), *final(self)),
    {
        proof {
            reveal(grammar::rule_blocks);
        }
        self.rule_header();
        self.recover_and_sync(&TokenSet(&just(SyntaxKind::L_BRACE)));
        self.expect(&TokenSet(&just(SyntaxKind::L_BRACE)));
        self.recover_and_sync(
            &TokenSet(
                &any_of(SyntaxKind::META_KW, SyntaxKind::STRINGS_KW, SyntaxKind::CONDITION_KW),
            ),
        );
        self.if_next(
            &TokenSet(&just(SyntaxKind::META_KW)),
            Ghost(Expr::Rule(SyntaxKind::META_BLK)),
            |p: &mut Self|
                requires
                    p.wf(),
                ensures
                    runs(Expr::Rule(SyntaxKind::META_BLK), *old(p), *final(p))
                { p.meta_blk() },
        );
        self.recover_and_sync(&TokenSet(&either(SyntaxKind::STRINGS_KW, SyntaxKind::CONDITION_KW)));
        self.if_next(
            &TokenSet(&just(SyntaxKind::STRINGS_KW)),
            Ghost(Expr::Rule(SyntaxKind::PATTERNS_BLK)),
            |p: &mut Self|
                requires
                    p.wf(),
                ensures
                    runs(Expr::Rule(SyntaxKind::PATTERNS_BLK), *old(p), *final(p))
                { p.patterns_blk() },
        );
    }

    /// Parses a rule declaration.
    ///
    /// ```text
    /// RULE_DECL ::= RULE_MODS? `rule` IDENT RULE_TAGS? `{`
    ///   META_BLK?
    ///   PATTERNS_BLK?
    ///   CONDITION_BLK
    /// `}`
    /// ```
    pub(crate) fn rule_decl(&mut self)
        requires
            old(self).wf(),
        ensures
            runs(Expr::Rule(SyntaxKind::RULE_DECL), *old(self), *final(self)),
    {
        let ghost s = self@;
        proof {
            self.lemma_wf();
            reveal(production);
            reveal(grammar::rule_decl);
            reveal(grammar::rule_parts);
        }
        self.begin(SyntaxKind::RULE_DECL);
        self.rule_blocks();
        self.recover_and_sync(&TokenSet(&just(SyntaxKind::CONDITION_KW)));
        self.condition_blk();
        self.recover_and_sync(&TokenSet(&just(SyntaxKind::R_BRACE)));
        self.expect(&TokenSet(&just(SyntaxKind::R_BRACE)));
        self.end_production(SyntaxKind::RULE_DECL, Ghost(s));
    }

    /// Parses the modifiers of a rule, if the first one is `private`.
    fn private_mods(&mut self)
        requires
            old(self).wf(),
        ensures
            runs(grammar::private_mods(), *old(self), *final(self)),
            advances(old(self)@, final(self)@),
    {
        proof {
            reveal(grammar::private_mods);
        }
        self.expect(&TokenSet(&just(SyntaxKind::PRIVATE_KW)));
        self.opt_expect(&TokenSet(&just(SyntaxKind::GLOBAL_KW)));
    }

    /// Parses the modifiers of a rule, if the first one is `global`.
    fn global_mods(&mut self)
        requires
            old(self).wf(),
        ensures
            runs(grammar::global_mods(), *old(self), *final(self)),
            advances(old(self)@, final(self)@),
    {
        proof {
            reveal(grammar::global_mods);
        }
        self.expect(&TokenSet(&just(SyntaxKind::GLOBAL_KW)));
        self.opt_expect(&TokenSet(&just(SyntaxKind::PRIVATE_KW)));
    }

    /// Parses rule modifiers.
    ///
    /// ```text
    /// RULE_MODS ::= ( `private` `global`? | `global` `private`? )
    /// ```
    pub(crate) fn rule_mods(&mut self)
        requires
            old(self).wf(),
        ensures
            runs(Expr::Rule(SyntaxKind::RULE_MODS), *old(self), *final(self)),
            advances(old(self)@, final(self)@),
    {
        let ghost s = self@;
        proof {
            self.lemma_wf();
            reveal(production);
            reveal(grammar::rule_mods);
        }
        self.begin(SyntaxKind::RULE_MODS);
        let mut alternatives = self.begin_alt();
        self.alt(
            &mut alternatives,
            Ghost(grammar::private_mods()),
            |p: &mut Self|
                requires
                    p.wf(),
                ensures
                    runs(grammar::private_mods(), *old(p), *final(p))
                { p.private_mods() },
        );
        self.alt(
            &mut alternatives,
            Ghost(grammar::global_mods()),
            |p: &mut Self|
                requires
                    p.wf(),
                ensures
                    runs(grammar::global_mods(), *old(p), *final(p))
                { p.global_mods() },
        );
        self.end_alt(alternatives);
        self.end_production(SyntaxKind::RULE_MODS, Ghost(s));
    }

    /// Parses rule tags.
    ///
    /// ```text
    /// RULE_TAGS ::= `:` IDENT+
    /// ```
    pub(crate) fn rule_tags(&mut self)
        requires
            old(self).wf(),
        ensures
            runs(Expr::Rule(SyntaxKind::RULE_TAGS), *old(self), *final(self)),
            advances(old(self)@, final(self)@),
    {
        let ghost s = self@;
        proof {
            self.lemma_wf();
            reveal(production);
            reveal(grammar::rule_tags);
        }
        self.begin(SyntaxKind::RULE_TAGS);
        self.expect(&TokenSet(&just(SyntaxKind::COLON)));
        self.one_or_more(
            Ghost(grammar::token(seq![SyntaxKind::IDENT])),
            |p: &mut Self|
                requires
                    p.wf(),
                ensures
                    runs(grammar::token(seq![SyntaxKind::IDENT]), *old(p), *final(p))
                { p.expect(&TokenSet(&just(SyntaxKind::IDENT))) },
        );
        self.end_production(SyntaxKind::RULE_TAGS, Ghost(s));
    }

    /// Parses a metadata block.
    ///
    /// ```text
    /// META_BLK ::= `meta` `:` META_DEF+
    /// ```
    pub(crate) fn meta_blk(&mut self)
        requires
            old(self).wf(),
        ensures
            runs(Expr::Rule(SyntaxKind::META_BLK), *old(self), *final(self)),
            advances(old(self)@, final(self)@),
    {
        let ghost s = self@;
        proof {
            self.lemma_wf();
            reveal(production);
            reveal(grammar::meta_blk);
        }
        self.begin(SyntaxKind::META_BLK);
        self.expect(&TokenSet(&just(SyntaxKind::META_KW)));
        self.expect(&TokenSet(&just(SyntaxKind::COLON)));
        self.one_or_more(
            Ghost(Expr::Rule(SyntaxKind::META_DEF)),
            |p: &mut Self|
                requires
                    p.wf(),
                ensures
                    runs(Expr::Rule(SyntaxKind::META_DEF), *old(p), *final(p))
                { p.meta_def() },
        );
        self.end_production(SyntaxKind::META_BLK, Ghost(s));
    }

    /// Parses a number, with a sign or not.
    fn signed_number(&mut self)
        requires
            old(self).wf(),
        ensures
            runs(grammar::signed_number(), *old(self), *final(self)),
            advances(old(self)@, final(self)@),
    {
        proof {
            reveal(grammar::signed_number);
        }
        self.opt_expect(&TokenSet(&just(SyntaxKind::MINUS)));
        self.expect(&TokenSet(&either(SyntaxKind::INTEGER_LIT, SyntaxKind::FLOAT_LIT)));
    }

    /// Parses a metadata definition.
    ///
    /// ```text
    /// META_DEF ::= IDENT `=` (
    ///     `-`? ( INTEGER_LIT | FLOAT_LIT ) |
    ///     STRING_LIT                       |
    ///     `true`                           |
    ///     `false`
    /// )
    /// ```
    pub(crate) fn meta_def(&mut self)
        requires
            old(self).wf(),
        ensures
            runs(Expr::Rule(SyntaxKind::META_DEF), *old(self), *final(self)),
            advances(old(self)@, final(self)@),
    {
        let ghost s = self@;
        proof {
            self.lemma_wf();
            reveal(production);
            reveal(grammar::meta_def);
        }
        self.begin(SyntaxKind::META_DEF);
        self.expect(&TokenSet(&just(SyntaxKind::IDENT)));
        self.expect(&TokenSet(&just(SyntaxKind::EQUAL)));
        let mut alternatives = self.begin_alt();
        self.alt(
            &mut alternatives,
            Ghost(grammar::signed_number()),
            |p: &mut Self|
                requires
                    p.wf(),
                ensures
                    runs(grammar::signed_number(), *old(p), *final(p))
                { p.signed_number() },
        );
        self.alt(
            &mut alternatives,
            Ghost(
                grammar::token(
                    seq![SyntaxKind::STRING_LIT, SyntaxKind::TRUE_KW, SyntaxKind::FALSE_KW],
                ),
            ),
            |p: &mut Self|
                requires
                    p.wf(),
                ensures
                    runs(
                        grammar::token(
                            seq![SyntaxKind::STRING_LIT, SyntaxKind::TRUE_KW, SyntaxKind::FALSE_KW],
                        ),
                        *old(p),
                        *final(p),
                    )
                {
                    p.expect(&TokenSet(&any_of(
                        SyntaxKind::STRING_LIT,
                        SyntaxKind::TRUE_KW,
                        SyntaxKind::FALSE_KW,
                    )))
                },
        );
        self.end_alt(alternatives);
        self.end_production(SyntaxKind::META_DEF, Ghost(s));
    }

    /// Parses the patterns block.
    ///
    /// ```text
    /// PATTERNS_BLK ::= `strings` `:` PATTERN_DEF+
    /// ```
    pub(crate) fn patterns_blk(&mut self)
        requires
            old(self).wf(),
        ensures
            runs(Expr::Rule(SyntaxKind::PATTERNS_BLK), *old(self), *final(self)),
            advances(old(self)@, final(self)@),
    {
        let ghost s = self@;
        proof {
            self.lemma_wf();
            reveal(production);
            reveal(grammar::patterns_blk);
        }
        self.begin(SyntaxKind::PATTERNS_BLK);
        self.expect(&TokenSet(&just(SyntaxKind::STRINGS_KW)));
        self.expect(&TokenSet(&just(SyntaxKind::COLON)));
        self.one_or_more(
            Ghost(Expr::Rule(SyntaxKind::PATTERN_DEF)),
            |p: &mut Self|
                requires
                    p.wf(),
                ensures
                    runs(Expr::Rule(SyntaxKind::PATTERN_DEF), *old(p), *final(p))
                { p.pattern_def() },
        );
        self.end_production(SyntaxKind::PATTERNS_BLK, Ghost(s));
    }

    /// Parses a pattern definition.
    ///
    /// ```text
    /// PATTERN_DEF ::= PATTERN_IDENT `=` (
    ///     STRING_LIT  |
    ///     REGEXP      |
    ///     HEX_PATTERN
    /// ) PATTERN_MODS?
    /// ```
    pub(crate) fn pattern_def(&mut self)
        requires
            old(self).wf(),
        ensures
            runs(Expr::Rule(SyntaxKind::PATTERN_DEF), *old(self), *final(self)),
            advances(old(self)@, final(self)@),
    {
        let ghost s = self@;
        proof {
            self.lemma_wf();
            reveal(production);
            reveal(grammar::pattern_def);
        }
        self.begin(SyntaxKind::PATTERN_DEF);
        self.expect(&TokenSet(&just(SyntaxKind::PATTERN_IDENT)));
        self.expect(&TokenSet(&just(SyntaxKind::EQUAL)));
        let mut alternatives = self.begin_alt();
        self.alt(
            &mut alternatives,
            Ghost(grammar::token(seq![SyntaxKind::STRING_LIT])),
            |p: &mut Self|
                requires
                    p.wf(),
                ensures
                    runs(grammar::token(seq![SyntaxKind::STRING_LIT]), *old(p), *final(p))
                { p.expect(&TokenSet(&just(SyntaxKind::STRING_LIT))) },
        );
        self.alt(
            &mut alternatives,
            Ghost(grammar::token(seq![SyntaxKind::REGEXP])),
            |p: &mut Self|
                requires
                    p.wf(),
                ensures
                    runs(grammar::token(seq![SyntaxKind::REGEXP]), *old(p), *final(p))
                { p.expect(&TokenSet(&just(SyntaxKind::REGEXP))) },
        );
        self.alt(
            &mut alternatives,
            Ghost(Expr::Rule(SyntaxKind::HEX_PATTERN)),
            |p: &mut Self|
                requires
                    p.wf(),
                ensures
                    runs(Expr::Rule(SyntaxKind::HEX_PATTERN), *old(p), *final(p))
                { p.hex_pattern() },
        );
        self.end_alt(alternatives);
        self.opt(
            Ghost(Expr::Rule(SyntaxKind::PATTERN_MODS)),
            |p: &mut Self|
                requires
                    p.wf(),
                ensures
                    runs(Expr::Rule(SyntaxKind::PATTERN_MODS), *old(p), *final(p))
                { p.pattern_mods() },
        );
        self.end_production(SyntaxKind::PATTERN_DEF, Ghost(s));
    }

    /// Parses pattern modifiers.
    ///
    /// ```text
    /// PATTERN_MODS ::= PATTERN_MOD+
    /// ```
    pub(crate) fn pattern_mods(&mut self)
        requires
            old(self).wf(),
        ensures
            runs(Expr::Rule(SyntaxKind::PATTERN_MODS), *old(self), *final(self)),
            advances(old(self)@, final(self)@),
    {
        let ghost s = self@;
        proof {
            self.lemma_wf();
            reveal(production);
            reveal(grammar::pattern_mods);
        }
        self.begin(SyntaxKind::PATTERN_MODS);
        self.one_or_more(
            Ghost(Expr::Rule(SyntaxKind::PATTERN_MOD)),
            |p: &mut Self|
                requires
                    p.wf(),
                ensures
                    runs(Expr::Rule(SyntaxKind::PATTERN_MOD), *old(p), *final(p))
                { p.pattern_mod() },
        );
        self.end_production(SyntaxKind::PATTERN_MODS, Ghost(s));
    }

    /// Parses the argument of the `base64` modifiers.
    fn base64_alphabet(&mut self)
        requires
            old(self).wf(),
        ensures
            runs(grammar::base64_alphabet(), *old(self), *final(self)),
            advances(old(self)@, final(self)@),
    {
        proof {
            reveal(grammar::base64_alphabet);
        }
        self.expect(&TokenSet(&just(SyntaxKind::L_PAREN)));
        self.expect(&TokenSet(&just(SyntaxKind::STRING_LIT)));
        self.expect(&TokenSet(&just(SyntaxKind::R_PAREN)));
    }

    /// Parses a `base64` modifier.
    fn base64_mod(&mut self)
        requires
            old(self).wf(),
        ensures
            runs(grammar::base64_mod(), *old(self), *final(self)),
            advances(old(self)@, final(self)@),
    {
        proof {
            reveal(grammar::base64_mod);
        }
        self.expect_d(
            &TokenSet(&either(SyntaxKind::BASE64_KW, SyntaxKind::BASE64WIDE_KW)),
            Some("pattern modifier"),
        );
        self.opt(
            Ghost(grammar::base64_alphabet()),
            |p: &mut Self|
                requires
                    p.wf(),
                ensures
                    runs(grammar::base64_alphabet(), *old(p), *final(p))
                { p.base64_alphabet() },
        );
    }

    /// Parses the second half of the argument of the `xor` modifier.
    fn xor_upper_bound(&mut self)
        requires
            old(self).wf(),
        ensures
            runs(grammar::xor_upper_bound(), *old(self), *final(self)),
            advances(old(self)@, final(self)@),
    {
        proof {
            reveal(grammar::xor_upper_bound);
        }
        self.expect(&TokenSet(&just(SyntaxKind::HYPHEN)));
        self.expect(&TokenSet(&just(SyntaxKind::INTEGER_LIT)));
    }

    /// Parses the argument of the `xor` modifier.
    fn xor_range(&mut self)
        requires
            old(self).wf(),
        ensures
            runs(grammar::xor_range(), *old(self), *final(self)),
            advances(old(self)@, final(self)@),
    {
        proof {
            reveal(grammar::xor_range);
        }
        self.expect(&TokenSet(&just(SyntaxKind::L_PAREN)));
        self.expect(&TokenSet(&just(SyntaxKind::INTEGER_LIT)));
        self.opt(
            Ghost(grammar::xor_upper_bound()),
            |p: &mut Self|
                requires
                    p.wf(),
                ensures
                    runs(grammar::xor_upper_bound(), *old(p), *final(p))
                { p.xor_upper_bound() },
        );
        self.expect(&TokenSet(&just(SyntaxKind::R_PAREN)));
    }

    /// Parses an `xor` modifier.
    fn xor_mod(&mut self)
        requires
            old(self).wf(),
        ensures
            runs(grammar::xor_mod(), *old(self), *final(self)),
            advances(old(self)@, final(self)@),
    {
        proof {
            reveal(grammar::xor_mod);
        }
        self.expect_d(&TokenSet(&just(SyntaxKind::XOR_KW)), Some("pattern modifier"));
        self.opt(
            Ghost(grammar::xor_range()),
            |p: &mut Self|
                requires
                    p.wf(),
                ensures
                    runs(grammar::xor_range(), *old(p), *final(p))
                { p.xor_range() },
        );
    }

    /// Parses a modifier without arguments.
    fn plain_mod(&mut self)
        requires
            old(self).wf(),
        ensures
            runs(grammar::plain_mod(), *old(self), *final(self)),
            advances(old(self)@, final(self)@),
    {
        proof {
            reveal(grammar::plain_mod);
        }
        self.expect_d(&TokenSet(&plain_mods()), Some("pattern modifier"));
    }

    /// Parses a pattern modifier.
    ///
    /// ```text
    /// PATTERN_MOD ::= (
    ///   `ascii`                                              |
    ///   `wide`                                               |
    ///   `nocase`                                             |
    ///   `private`                                            |
    ///   `fullword`                                           |
    ///   ( `base64` | `base64wide` ) ( `(` STRING_LIT `)` )?  |
    ///   `xor` ( `(` INTEGER_LIT ( `-` INTEGER_LIT )? `)` )?
    /// )
    /// ```
    pub(crate) fn pattern_mod(&mut self)
        requires
            old(self).wf(),
        ensures
            runs(Expr::Rule(SyntaxKind::PATTERN_MOD), *old(self), *final(self)),
            advances(old(self)@, final(self)@),
    {
        let ghost s = self@;
        proof {
            self.lemma_wf();
            reveal(production);
            reveal(grammar::pattern_mod);
        }
        self.begin(SyntaxKind::PATTERN_MOD);
        let mut alternatives = self.begin_alt();
        self.alt(
            &mut alternatives,
            Ghost(grammar::plain_mod()),
            |p: &mut Self|
                requires
                    p.wf(),
                ensures
                    runs(grammar::plain_mod(), *old(p), *final(p))
                { p.plain_mod() },
        );
        self.alt(
            &mut alternatives,
            Ghost(grammar::base64_mod()),
            |p: &mut Self|
                requires
                    p.wf(),
                ensures
                    runs(grammar::base64_mod(), *old(p), *final(p))
                { p.base64_mod() },
        );
        self.alt(
            &mut alternatives,
            Ghost(grammar::xor_mod()),
            |p: &mut Self|
                requires
                    p.wf(),
                ensures
                    runs(grammar::xor_mod(), *old(p), *final(p))
                { p.xor_mod() },
        );
        self.end_alt(alternatives);
        self.end_production(SyntaxKind::PATTERN_MOD, Ghost(s));
    }

    /// Parses the condition block.
    ///
    /// ```text
    /// CONDITION_BLK ::= `condition` `:` BOOLEAN_EXPR
    /// ```
    pub(crate) fn condition_blk(&mut self)
        requires
            old(self).wf(),
        ensures
            runs(Expr::Rule(SyntaxKind::CONDITION_BLK), *old(self), *final(self)),
            advances(old(self)@, final(self)@),
    {
        let ghost s = self@;
        proof {
            self.lemma_wf();
            reveal(production);
            reveal(grammar::condition_blk);
        }
        self.begin(SyntaxKind::CONDITION_BLK);
        self.expect(&TokenSet(&just(SyntaxKind::CONDITION_KW)));
        self.expect(&TokenSet(&just(SyntaxKind::COLON)));
        self.one(
            Ghost(Expr::Rule(SyntaxKind::BOOLEAN_EXPR)),
            |p: &mut Self|
                requires
                    p.wf(),
                ensures
                    runs(Expr::Rule(SyntaxKind::BOOLEAN_EXPR), *old(p), *final(p))
                { p.boolean_expr() },
        );
        self.end_production(SyntaxKind::CONDITION_BLK, Ghost(s));
    }

    /// Parses a hex pattern.
    ///
    /// ```text
    /// HEX_PATTERN ::= `{` HEX_SUB_PATTERN `}`
    /// ```
    pub(crate) fn hex_pattern(&mut self)
        requires
            old(self).wf(),
        ensures
            runs(Expr::Rule(SyntaxKind::HEX_PATTERN), *old(self), *final(self)),
            advances(old(self)@, final(self)@),
    {
        let ghost s = self@;
        proof {
            self.lemma_wf();
            reveal(production);
            reveal(grammar::hex_pattern);
        }
        self.begin(SyntaxKind::HEX_PATTERN);
        self.expect(&TokenSet(&just(SyntaxKind::L_BRACE)));
        self.enter_hex_pattern_mode();
        self.one(
            Ghost(Expr::Rule(SyntaxKind::HEX_SUB_PATTERN)),
            |p: &mut Self|
                requires
                    p.wf(),
                ensures
                    runs(Expr::Rule(SyntaxKind::HEX_SUB_PATTERN), *old(p), *final(p))
                { p.hex_sub_pattern() },
        );
        self.expect(&TokenSet(&just(SyntaxKind::R_BRACE)));
        self.end_production(SyntaxKind::HEX_PATTERN, Ghost(s));
    }

    /// Parses a byte or an alternative of a hex pattern.
    fn hex_item(&mut self)
        requires
            old(self).wf(),
        ensures
            runs(grammar::hex_item(), *old(self), *final(self)),
            advances(old(self)@, final(self)@),
        decreases old(self)@.rest(), 1nat,
    {
        let ghost n = self@.rest();
        proof {
            reveal(grammar::hex_item);
        }
        let mut alternatives = self.begin_alt();
        self.alt(
            &mut alternatives,
            Ghost(grammar::token(seq![SyntaxKind::HEX_BYTE])),
            |p: &mut Self|
                requires
                    p.wf(),
                ensures
                    runs(grammar::token(seq![SyntaxKind::HEX_BYTE]), *old(p), *final(p))
                { p.expect(&TokenSet(&just(SyntaxKind::HEX_BYTE))) },
        );
        self.alt(
            &mut alternatives,
            Ghost(Expr::Rule(SyntaxKind::HEX_ALTERNATIVE)),
            |p: &mut Self|
                requires
                    p.wf(),
                    p@.rest() <= n,
                ensures
                    runs(Expr::Rule(SyntaxKind::HEX_ALTERNATIVE), *old(p), *final(p))
                { p.hex_alternative() },
        );
        self.end_alt(alternatives);
    }

    /// Parses jumps, and what follows them.
    fn hex_more(&mut self)
        requires
            old(self).wf(),
        ensures
            runs(grammar::hex_more(), *old(self), *final(self)),
            advances(old(self)@, final(self)@),
        decreases old(self)@.rest(), 3nat,
    {
        proof {
            reveal(grammar::hex_more);
        }
        self.zero_or_more(
            Ghost(Expr::Rule(SyntaxKind::HEX_JUMP)),
            |p: &mut Self|
                requires
                    p.wf(),
                ensures
                    runs(Expr::Rule(SyntaxKind::HEX_JUMP), *old(p), *final(p))
                { p.hex_jump() },
        );
        self.hex_item();
    }

    /// Parses what is between the braces of a hex pattern, or a branch of an
    /// alternative.
    ///
    /// ```text
    /// HEX_SUB_PATTERN ::=
    ///   ( HEX_BYTE | HEX_ALTERNATIVE ) ( HEX_JUMP* ( HEX_BYTE | HEX_ALTERNATIVE ) )*
    /// ```
    pub(crate) fn hex_sub_pattern(&mut self)
        requires
            old(self).wf(),
        ensures
            runs(Expr::Rule(SyntaxKind::HEX_SUB_PATTERN), *old(self), *final(self)),
            advances(old(self)@, final(self)@),
        decreases old(self)@.rest(), 4nat,
    {
        let ghost s = self@;
        let ghost n = self@.rest();
        proof {
            self.lemma_wf();
            reveal(production);
            reveal(grammar::hex_sub_pattern);
        }
        self.begin(SyntaxKind::HEX_SUB_PATTERN);
        self.hex_item();
        assert(consumes(grammar::hex_more())) by {
            broadcast use group_shapes;

            reveal(grammar::hex_more);
            reveal(grammar::hex_item);
        }
        self.zero_or_more(
            Ghost(grammar::hex_more()),
            |p: &mut Self|
                requires
                    p.wf(),
                    p@.rest() <= n,
                ensures
                    runs(grammar::hex_more(), *old(p), *final(p))
                { p.hex_more() },
        );
        self.end_production(SyntaxKind::HEX_SUB_PATTERN, Ghost(s));
    }

    /// Parses one more branch of an alternative of a hex pattern.
    fn hex_branch(&mut self)
        requires
            old(self).wf(),
        ensures
            runs(grammar::hex_branch(), *old(self), *final(self)),
            advances(old(self)@, final(self)@),
        decreases old(self)@.rest(), 0nat,
    {
        let ghost n = self@.rest();
        proof {
            reveal(grammar::hex_branch);
        }
        self.expect(&TokenSet(&just(SyntaxKind::PIPE)));
        self.one(
            Ghost(Expr::Rule(SyntaxKind::HEX_SUB_PATTERN)),
            |p: &mut Self|
                requires
                    p.wf(),
                    p@.rest() < n,
                ensures
                    runs(Expr::Rule(SyntaxKind::HEX_SUB_PATTERN), *old(p), *final(p))
                { p.hex_sub_pattern() },
        );
    }

    /// Parses a hex pattern alternative.
    ///
    /// ```text
    /// HEX_ALTERNATIVE ::= `(` HEX_SUB_PATTERN ( `|` HEX_SUB_PATTERN )* `)`
    /// ```
    pub(crate) fn hex_alternative(&mut self)
        requires
            old(self).wf(),
        ensures
            runs(Expr::Rule(SyntaxKind::HEX_ALTERNATIVE), *old(self), *final(self)),
            advances(old(self)@, final(self)@),
        decreases old(self)@.rest(), 0nat,
    {
        let ghost s = self@;
        let ghost n = self@.rest();
        proof {
            self.lemma_wf();
            reveal(production);
            reveal(grammar::hex_alternative);
        }
        self.begin(SyntaxKind::HEX_ALTERNATIVE);
        self.expect(&TokenSet(&just(SyntaxKind::L_PAREN)));
        self.one(
            Ghost(Expr::Rule(SyntaxKind::HEX_SUB_PATTERN)),
            |p: &mut Self|
                requires
                    p.wf(),
                    p@.rest() < n,
                ensures
                    runs(Expr::Rule(SyntaxKind::HEX_SUB_PATTERN), *old(p), *final(p))
                { p.hex_sub_pattern() },
        );
        assert(consumes(grammar::hex_branch())) by {
            broadcast use group_shapes;

            reveal(grammar::hex_branch);
        }
        self.zero_or_more(
            Ghost(grammar::hex_branch()),
            |p: &mut Self|
                requires
                    p.wf(),
                    p@.rest() < n,
                ensures
                    runs(grammar::hex_branch(), *old(p), *final(p))
                { p.hex_branch() },
        );
        self.expect(&TokenSet(&just(SyntaxKind::R_PAREN)));
        self.end_production(SyntaxKind::HEX_ALTERNATIVE, Ghost(s));
    }

    /// Parses the bounds of a jump, each of which can be left out.
    fn jump_bounds(&mut self)
        requires
            old(self).wf(),
        ensures
            runs(grammar::jump_bounds(), *old(self), *final(self)),
            advances(old(self)@, final(self)@),
    {
        proof {
            reveal(grammar::jump_bounds);
        }
        self.opt_expect(&TokenSet(&just(SyntaxKind::INTEGER_LIT)));
        self.expect(&TokenSet(&just(SyntaxKind::HYPHEN)));
        self.opt_expect(&TokenSet(&just(SyntaxKind::INTEGER_LIT)));
    }

    /// Parses a hex jump.
    ///
    /// ```text
    /// HEX_JUMP ::= `[` ( INTEGER_LIT? `-` INTEGER_LIT? | INTEGER_LIT ) `]`
    /// ```
    pub(crate) fn hex_jump(&mut self)
        requires
            old(self).wf(),
        ensures
            runs(Expr::Rule(SyntaxKind::HEX_JUMP), *old(self), *final(self)),
            advances(old(self)@, final(self)@),
    {
        let ghost s = self@;
        proof {
            self.lemma_wf();
            reveal(production);
            reveal(grammar::hex_jump);
        }
        self.begin(SyntaxKind::HEX_JUMP);
        self.expect(&TokenSet(&just(SyntaxKind::L_BRACKET)));
        self.enter_hex_jump_mode();
        let mut alternatives = self.begin_alt();
        self.alt(
            &mut alternatives,
            Ghost(grammar::jump_bounds()),
            |p: &mut Self|
                requires
                    p.wf(),
                ensures
                    runs(grammar::jump_bounds(), *old(p), *final(p))
                { p.jump_bounds() },
        );
        self.alt(
            &mut alternatives,
            Ghost(grammar::token(seq![SyntaxKind::INTEGER_LIT])),
            |p: &mut Self|
                requires
                    p.wf(),
                ensures
                    runs(grammar::token(seq![SyntaxKind::INTEGER_LIT]), *old(p), *final(p))
                { p.expect(&TokenSet(&just(SyntaxKind::INTEGER_LIT))) },
        );
        self.end_alt(alternatives);
        self.expect(&TokenSet(&just(SyntaxKind::R_BRACKET)));
        self.end_production(SyntaxKind::HEX_JUMP, Ghost(s));
    }

    /// Parses one more term of a boolean expression.
    fn boolean_more(&mut self)
        requires
            old(self).wf(),
        ensures
            runs(grammar::boolean_more(), *old(self), *final(self)),
            advances(old(self)@, final(self)@),
        decreases old(self)@.rest(), 0nat,
    {
        let ghost n = self@.rest();
        proof {
            reveal(grammar::boolean_more);
        }
        self.expect(&TokenSet(&either(SyntaxKind::AND_KW, SyntaxKind::OR_KW)));
        self.one(
            Ghost(Expr::Rule(SyntaxKind::BOOLEAN_TERM)),
            |p: &mut Self|
                requires
                    p.wf(),
                    p@.rest() < n,
                ensures
                    runs(Expr::Rule(SyntaxKind::BOOLEAN_TERM), *old(p), *final(p))
                { p.boolean_term() },
        );
    }

    /// Parses a boolean expression.
    ///
    /// ```text
    /// BOOLEAN_EXPR ::= BOOLEAN_TERM ( ( `and` | `or` ) BOOLEAN_TERM )*
    /// ```
    pub(crate) fn boolean_expr(&mut self)
        requires
            old(self).wf(),
        ensures
            runs(Expr::Rule(SyntaxKind::BOOLEAN_EXPR), *old(self), *final(self)),
            advances(old(self)@, final(self)@),
        decreases old(self)@.rest(), 9nat,
    {
        let ghost s = self@;
        let ghost n = self@.rest();
        proof {
            self.lemma_wf();
            reveal(production);
            reveal(grammar::boolean_expr);
        }
        self.begin(SyntaxKind::BOOLEAN_EXPR);
        self.boolean_term();
        assert(consumes(grammar::boolean_more())) by {
            broadcast use group_shapes;

            reveal(grammar::boolean_more);
        }
        self.zero_or_more(
            Ghost(grammar::boolean_more()),
            |p: &mut Self|
                requires
                    p.wf(),
                    p@.rest() <= n,
                ensures
                    runs(grammar::boolean_more(), *old(p), *final(p))
                { p.boolean_more() },
        );
        self.end_production(SyntaxKind::BOOLEAN_EXPR, Ghost(s));
    }

    /// Parses a pattern, and where it must be.
    fn anchored_pattern(&mut self)
        requires
            old(self).wf(),
        ensures
            runs(grammar::anchored_pattern(), *old(self), *final(self)),
            advances(old(self)@, final(self)@),
        decreases old(self)@.rest(), 0nat,
    {
        let ghost n = self@.rest();
        proof {
            reveal(grammar::anchored_pattern);
        }
        self.expect(&TokenSet(&just(SyntaxKind::PATTERN_IDENT)));
        self.cond(
            &TokenSet(&just(SyntaxKind::AT_KW)),
            Ghost(Expr::Rule(SyntaxKind::EXPR)),
            |p: &mut Self|
                requires
                    p.wf(),
                    p@.rest() < n,
                ensures
                    runs(Expr::Rule(SyntaxKind::EXPR), *old(p), *final(p))
                { p.expr() },
        );
        self.cond(
            &TokenSet(&just(SyntaxKind::IN_KW)),
            Ghost(Expr::Rule(SyntaxKind::RANGE)),
            |p: &mut Self|
                requires
                    p.wf(),
                    p@.rest() < n,
                ensures
                    runs(Expr::Rule(SyntaxKind::RANGE), *old(p), *final(p))
                { p.range() },
        );
    }

    /// Parses a term after a prefix operator.
    fn prefixed_term(&mut self)
        requires
            old(self).wf(),
        ensures
            runs(grammar::prefixed_term(), *old(self), *final(self)),
            advances(old(self)@, final(self)@),
        decreases old(self)@.rest(), 0nat,
    {
        let ghost n = self@.rest();
        proof {
            reveal(grammar::prefixed_term);
        }
        self.expect(&TokenSet(&either(SyntaxKind::NOT_KW, SyntaxKind::DEFINED_KW)));
        self.one(
            Ghost(Expr::Rule(SyntaxKind::BOOLEAN_TERM)),
            |p: &mut Self|
                requires
                    p.wf(),
                    p@.rest() < n,
                ensures
                    runs(Expr::Rule(SyntaxKind::BOOLEAN_TERM), *old(p), *final(p))
                { p.boolean_term() },
        );
    }

    /// Parses the right side of a comparison.
    fn comparison_more(&mut self)
        requires
            old(self).wf(),
        ensures
            runs(grammar::comparison_more(), *old(self), *final(self)),
            advances(old(self)@, final(self)@),
        decreases old(self)@.rest(), 0nat,
    {
        let ghost n = self@.rest();
        proof {
            reveal(grammar::comparison_more);
        }
        self.expect(&TokenSet(&comparison_ops()));
        self.one(
            Ghost(Expr::Rule(SyntaxKind::EXPR)),
            |p: &mut Self|
                requires
                    p.wf(),
                    p@.rest() < n,
                ensures
                    runs(Expr::Rule(SyntaxKind::EXPR), *old(p), *final(p))
                { p.expr() },
        );
    }

    /// Parses an expression, compared with others or not.
    fn comparison(&mut self)
        requires
            old(self).wf(),
        ensures
            runs(grammar::comparison(), *old(self), *final(self)),
            advances(old(self)@, final(self)@),
        decreases old(self)@.rest(), 5nat,
    {
        let ghost n = self@.rest();
        proof {
            reveal(grammar::comparison);
        }
        self.expr();
        assert(consumes(grammar::comparison_more())) by {
            broadcast use group_shapes;

            reveal(grammar::comparison_more);
        }
        self.zero_or_more(
            Ghost(grammar::comparison_more()),
            |p: &mut Self|
                requires
                    p.wf(),
                    p@.rest() <= n,
                ensures
                    runs(grammar::comparison_more(), *old(p), *final(p))
                { p.comparison_more() },
        );
    }

    /// Parses a boolean expression in parentheses.
    fn boolean_group(&mut self)
        requires
            old(self).wf(),
        ensures
            runs(grammar::boolean_group(), *old(self), *final(self)),
            advances(old(self)@, final(self)@),
        decreases old(self)@.rest(), 0nat,
    {
        let ghost n = self@.rest();
        proof {
            reveal(grammar::boolean_group);
        }
        self.expect(&TokenSet(&just(SyntaxKind::L_PAREN)));
        self.one(
            Ghost(Expr::Rule(SyntaxKind::BOOLEAN_EXPR)),
            |p: &mut Self|
                requires
                    p.wf(),
                    p@.rest() < n,
                ensures
                    runs(Expr::Rule(SyntaxKind::BOOLEAN_EXPR), *old(p), *final(p))
                { p.boolean_expr() },
        );
        self.expect(&TokenSet(&just(SyntaxKind::R_PAREN)));
    }

    /// Parses a boolean term.
    ///
    /// ```text
    /// BOOLEAN_TERM ::= (
    ///    PATTERN_IDENT ( `at` EXPR )? ( `in` RANGE )? |
    ///    `true`                                       |
    ///    `false`                                      |
    ///    `not` BOOLEAN_TERM                           |
    ///    `defined` BOOLEAN_TERM                       |
    ///    FOR_EXPR                                     |
    ///    OF_EXPR                                      |
    ///    EXPR ( comparison_op EXPR )*                 |
    ///    `(` BOOLEAN_EXPR `)`
    /// )
    /// ```
    pub(crate) fn boolean_term(&mut self)
        requires
            old(self).wf(),
        ensures
            runs(Expr::Rule(SyntaxKind::BOOLEAN_TERM), *old(self), *final(self)),
            advances(old(self)@, final(self)@),
        decreases old(self)@.rest(), 8nat,
    {
        let ghost s = self@;
        let ghost n = self@.rest();
        proof {
            self.lemma_wf();
            reveal(production);
            reveal(grammar::boolean_term);
        }
        self.begin(SyntaxKind::BOOLEAN_TERM);
        let mut alternatives = self.begin_alt();
        self.alt(
            &mut alternatives,
            Ghost(grammar::anchored_pattern()),
            |p: &mut Self|
                requires
                    p.wf(),
                    p@.rest() <= n,
                ensures
                    runs(grammar::anchored_pattern(), *old(p), *final(p))
                { p.anchored_pattern() },
        );
        self.alt(
            &mut alternatives,
            Ghost(grammar::token(seq![SyntaxKind::TRUE_KW, SyntaxKind::FALSE_KW])),
            |p: &mut Self|
                requires
                    p.wf(),
                ensures
                    runs(
                        grammar::token(seq![SyntaxKind::TRUE_KW, SyntaxKind::FALSE_KW]),
                        *old(p),
                        *final(p),
                    )
                { p.expect(&TokenSet(&either(SyntaxKind::TRUE_KW, SyntaxKind::FALSE_KW))) },
        );
        self.alt(
            &mut alternatives,
            Ghost(grammar::prefixed_term()),
            |p: &mut Self|
                requires
                    p.wf(),
                    p@.rest() <= n,
                ensures
                    runs(grammar::prefixed_term(), *old(p), *final(p))
                { p.prefixed_term() },
        );
        self.alt(
            &mut alternatives,
            Ghost(Expr::Rule(SyntaxKind::FOR_EXPR)),
            |p: &mut Self|
                requires
                    p.wf(),
                    p@.rest() <= n,
                ensures
                    runs(Expr::Rule(SyntaxKind::FOR_EXPR), *old(p), *final(p))
                { p.for_expr() },
        );
        self.alt(
            &mut alternatives,
            Ghost(Expr::Rule(SyntaxKind::OF_EXPR)),
            |p: &mut Self|
                requires
                    p.wf(),
                    p@.rest() <= n,
                ensures
                    runs(Expr::Rule(SyntaxKind::OF_EXPR), *old(p), *final(p))
                { p.of_expr() },
        );
        self.alt(
            &mut alternatives,
            Ghost(grammar::comparison()),
            |p: &mut Self|
                requires
                    p.wf(),
                    p@.rest() <= n,
                ensures
                    runs(grammar::comparison(), *old(p), *final(p))
                { p.comparison() },
        );
        self.alt(
            &mut alternatives,
            Ghost(grammar::boolean_group()),
            |p: &mut Self|
                requires
                    p.wf(),
                    p@.rest() <= n,
                ensures
                    runs(grammar::boolean_group(), *old(p), *final(p))
                { p.boolean_group() },
        );
        self.end_alt(alternatives);
        self.end_production(SyntaxKind::BOOLEAN_TERM, Ghost(s));
    }

    /// Parses one more term of an expression.
    fn expr_more(&mut self)
        requires
            old(self).wf(),
        ensures
            runs(grammar::expr_more(), *old(self), *final(self)),
            advances(old(self)@, final(self)@),
        decreases old(self)@.rest(), 0nat,
    {
        let ghost n = self@.rest();
        proof {
            reveal(grammar::expr_more);
        }
        self.expect(&TokenSet(&term_ops()));
        self.one(
            Ghost(Expr::Rule(SyntaxKind::TERM)),
            |p: &mut Self|
                requires
                    p.wf(),
                    p@.rest() < n,
                ensures
                    runs(Expr::Rule(SyntaxKind::TERM), *old(p), *final(p))
                { p.term() },
        );
    }

    /// Parses an expression.
    ///
    /// ```text
    /// EXPR ::= TERM ( ( arithmetic_op | bitwise_op | `.` ) TERM )*
    /// ```
    pub(crate) fn expr(&mut self)
        requires
            old(self).wf(),
        ensures
            runs(Expr::Rule(SyntaxKind::EXPR), *old(self), *final(self)),
            advances(old(self)@, final(self)@),
        decreases old(self)@.rest(), 4nat,
    {
        let ghost s = self@;
        let ghost n = self@.rest();
        proof {
            self.lemma_wf();
            reveal(production);
            reveal(grammar::expr);
        }
        self.begin(SyntaxKind::EXPR);
        self.term();
        assert(consumes(grammar::expr_more())) by {
            broadcast use group_shapes;

            reveal(grammar::expr_more);
        }
        self.zero_or_more(
            Ghost(grammar::expr_more()),
            |p: &mut Self|
                requires
                    p.wf(),
                    p@.rest() <= n,
                ensures
                    runs(grammar::expr_more(), *old(p), *final(p))
                { p.expr_more() },
        );
        self.end_production(SyntaxKind::EXPR, Ghost(s));
    }

    /// Parses what follows the opening bracket of an index.
    fn index(&mut self)
        requires
            old(self).wf(),
        ensures
            runs(grammar::index(), *old(self), *final(self)),
            advances(old(self)@, final(self)@),
        decreases old(self)@.rest(), 5nat,
    {
        proof {
            reveal(grammar::index);
        }
        self.expr();
        self.expect(&TokenSet(&just(SyntaxKind::R_BRACKET)));
    }

    /// Parses one more boolean expression of a list.
    fn more_booleans(&mut self)
        requires
            old(self).wf(),
        ensures
            runs(grammar::more_booleans(), *old(self), *final(self)),
            advances(old(self)@, final(self)@),
        decreases old(self)@.rest(), 0nat,
    {
        let ghost n = self@.rest();
        proof {
            reveal(grammar::more_booleans);
        }
        self.expect(&TokenSet(&just(SyntaxKind::COMMA)));
        self.one(
            Ghost(Expr::Rule(SyntaxKind::BOOLEAN_EXPR)),
            |p: &mut Self|
                requires
                    p.wf(),
                    p@.rest() < n,
                ensures
                    runs(Expr::Rule(SyntaxKind::BOOLEAN_EXPR), *old(p), *final(p))
                { p.boolean_expr() },
        );
    }

    /// Parses what follows the opening parenthesis of a function call.
    fn arguments(&mut self)
        requires
            old(self).wf(),
        ensures
            runs(grammar::arguments(), *old(self), *final(self)),
            advances(old(self)@, final(self)@),
        decreases old(self)@.rest(), 10nat,
    {
        let ghost n = self@.rest();
        proof {
            reveal(grammar::arguments);
        }
        self.opt(
            Ghost(Expr::Rule(SyntaxKind::BOOLEAN_EXPR)),
            |p: &mut Self|
                requires
                    p.wf(),
                    p@.rest() <= n,
                ensures
                    runs(Expr::Rule(SyntaxKind::BOOLEAN_EXPR), *old(p), *final(p))
                { p.boolean_expr() },
        );
        assert(consumes(grammar::more_booleans())) by {
            broadcast use group_shapes;

            reveal(grammar::more_booleans);
        }
        self.zero_or_more(
            Ghost(grammar::more_booleans()),
            |p: &mut Self|
                requires
                    p.wf(),
                    p@.rest() <= n,
                ensures
                    runs(grammar::more_booleans(), *old(p), *final(p))
                { p.more_booleans() },
        );
        self.expect(&TokenSet(&just(SyntaxKind::R_PAREN)));
    }

    /// Parses a term.
    ///
    /// ```text
    /// TERM ::= PRIMARY_EXPR ( `[` EXPR `]` )? ( `(` ( BOOLEAN_EXPR ( `,` BOOLEAN_EXPR )* )? `)` )?
    /// ```
    pub(crate) fn term(&mut self)
        requires
            old(self).wf(),
        ensures
            runs(Expr::Rule(SyntaxKind::TERM), *old(self), *final(self)),
            advances(old(self)@, final(self)@),
        decreases old(self)@.rest(), 3nat,
    {
        let ghost s = self@;
        let ghost n = self@.rest();
        proof {
            self.lemma_wf();
            reveal(production);
            reveal(grammar::term);
        }
        self.begin(SyntaxKind::TERM);
        self.one(
            Ghost(Expr::Rule(SyntaxKind::PRIMARY_EXPR)),
            |p: &mut Self|
                requires
                    p.wf(),
                    p@.rest() <= n,
                ensures
                    runs(Expr::Rule(SyntaxKind::PRIMARY_EXPR), *old(p), *final(p))
                { p.primary_expr() },
        );
        self.cond(
            &TokenSet(&just(SyntaxKind::L_BRACKET)),
            Ghost(grammar::index()),
            |p: &mut Self|
                requires
                    p.wf(),
                    p@.rest() < n,
                ensures
                    runs(grammar::index(), *old(p), *final(p))
                { p.index() },
        );
        self.cond(
            &TokenSet(&just(SyntaxKind::L_PAREN)),
            Ghost(grammar::arguments()),
            |p: &mut Self|
                requires
                    p.wf(),
                    p@.rest() < n,
                ensures
                    runs(grammar::arguments(), *old(p), *final(p))
                { p.arguments() },
        );
        self.end_production(SyntaxKind::TERM, Ghost(s));
    }

    /// Parses a range.
    ///
    /// ```text
    /// RANGE ::= `(` EXPR `.` `.` EXPR `)`
    /// ```
    pub(crate) fn range(&mut self)
        requires
            old(self).wf(),
        ensures
            runs(Expr::Rule(SyntaxKind::RANGE), *old(self), *final(self)),
            advances(old(self)@, final(self)@),
        decreases old(self)@.rest(), 0nat,
    {
        let ghost s = self@;
        let ghost n = self@.rest();
        proof {
            self.lemma_wf();
            reveal(production);
            reveal(grammar::range);
        }
        self.begin(SyntaxKind::RANGE);
        self.expect(&TokenSet(&just(SyntaxKind::L_PAREN)));
        self.one(
            Ghost(Expr::Rule(SyntaxKind::EXPR)),
            |p: &mut Self|
                requires
                    p.wf(),
                    p@.rest() < n,
                ensures
                    runs(Expr::Rule(SyntaxKind::EXPR), *old(p), *final(p))
                { p.expr() },
        );
        self.expect(&TokenSet(&just(SyntaxKind::DOT)));
        self.expect(&TokenSet(&just(SyntaxKind::DOT)));
        self.one(
            Ghost(Expr::Rule(SyntaxKind::EXPR)),
            |p: &mut Self|
                requires
                    p.wf(),
                    p@.rest() < n,
                ensures
                    runs(Expr::Rule(SyntaxKind::EXPR), *old(p), *final(p))
                { p.expr() },
        );
        self.expect(&TokenSet(&just(SyntaxKind::R_PAREN)));
        self.end_production(SyntaxKind::RANGE, Ghost(s));
    }

    /// Parses a literal, or a keyword that stands for a number.
    fn literal(&mut self)
        requires
            old(self).wf(),
        ensures
            runs(grammar::literal(), *old(self), *final(self)),
            advances(old(self)@, final(self)@),
    {
        proof {
            reveal(grammar::literal);
        }
        self.expect_d(&TokenSet(&literals()), Some("expression"));
    }

    /// Parses the range in which a pattern must be, or is counted.
    fn in_range(&mut self)
        requires
            old(self).wf(),
        ensures
            runs(grammar::in_range(), *old(self), *final(self)),
            advances(old(self)@, final(self)@),
        decreases old(self)@.rest(), 0nat,
    {
        let ghost n = self@.rest();
        proof {
            reveal(grammar::in_range);
        }
        self.expect(&TokenSet(&just(SyntaxKind::IN_KW)));
        self.one(
            Ghost(Expr::Rule(SyntaxKind::RANGE)),
            |p: &mut Self|
                requires
                    p.wf(),
                    p@.rest() < n,
                ensures
                    runs(Expr::Rule(SyntaxKind::RANGE), *old(p), *final(p))
                { p.range() },
        );
    }

    /// Parses how many times a pattern is found.
    fn pattern_count(&mut self)
        requires
            old(self).wf(),
        ensures
            runs(grammar::pattern_count(), *old(self), *final(self)),
            advances(old(self)@, final(self)@),
        decreases old(self)@.rest(), 0nat,
    {
        let ghost n = self@.rest();
        proof {
            reveal(grammar::pattern_count);
        }
        self.expect_d(&TokenSet(&just(SyntaxKind::PATTERN_COUNT)), Some("expression"));
        self.opt(
            Ghost(grammar::in_range()),
            |p: &mut Self|
                requires
                    p.wf(),
                    p@.rest() < n,
                ensures
                    runs(grammar::in_range(), *old(p), *final(p))
                { p.in_range() },
        );
    }

    /// Parses which of the matches of a pattern is meant.
    fn match_index(&mut self)
        requires
            old(self).wf(),
        ensures
            runs(grammar::match_index(), *old(self), *final(self)),
            advances(old(self)@, final(self)@),
        decreases old(self)@.rest(), 0nat,
    {
        let ghost n = self@.rest();
        proof {
            reveal(grammar::match_index);
        }
        self.expect(&TokenSet(&just(SyntaxKind::L_BRACKET)));
        self.one(
            Ghost(Expr::Rule(SyntaxKind::EXPR)),
            |p: &mut Self|
                requires
                    p.wf(),
                    p@.rest() < n,
                ensures
                    runs(Expr::Rule(SyntaxKind::EXPR), *old(p), *final(p))
                { p.expr() },
        );
        self.expect(&TokenSet(&just(SyntaxKind::R_BRACKET)));
    }

    /// Parses where a match of a pattern is, or how long it is.
    fn pattern_match(&mut self)
        requires
            old(self).wf(),
        ensures
            runs(grammar::pattern_match(), *old(self), *final(self)),
            advances(old(self)@, final(self)@),
        decreases old(self)@.rest(), 0nat,
    {
        let ghost n = self@.rest();
        proof {
            reveal(grammar::pattern_match);
        }
        self.expect_d(
            &TokenSet(&either(SyntaxKind::PATTERN_OFFSET, SyntaxKind::PATTERN_LENGTH)),
            Some("expression"),
        );
        self.opt(
            Ghost(grammar::match_index()),
            |p: &mut Self|
                requires
                    p.wf(),
                    p@.rest() < n,
                ensures
                    runs(grammar::match_index(), *old(p), *final(p))
                { p.match_index() },
        );
    }

    /// Parses a term after a minus sign.
    fn negation(&mut self)
        requires
            old(self).wf(),
        ensures
            runs(grammar::negation(), *old(self), *final(self)),
            advances(old(self)@, final(self)@),
        decreases old(self)@.rest(), 0nat,
    {
        let ghost n = self@.rest();
        proof {
            reveal(grammar::negation);
        }
        self.expect_d(&TokenSet(&just(SyntaxKind::MINUS)), Some("expression"));
        self.one(
            Ghost(Expr::Rule(SyntaxKind::TERM)),
            |p: &mut Self|
                requires
                    p.wf(),
                    p@.rest() < n,
                ensures
                    runs(Expr::Rule(SyntaxKind::TERM), *old(p), *final(p))
                { p.term() },
        );
    }

    /// Parses a term after a tilde.
    fn complement(&mut self)
        requires
            old(self).wf(),
        ensures
            runs(grammar::complement(), *old(self), *final(self)),
            advances(old(self)@, final(self)@),
        decreases old(self)@.rest(), 0nat,
    {
        let ghost n = self@.rest();
        proof {
            reveal(grammar::complement);
        }
        self.expect_d(&TokenSet(&just(SyntaxKind::BITWISE_NOT)), Some("expression"));
        self.one(
            Ghost(Expr::Rule(SyntaxKind::TERM)),
            |p: &mut Self|
                requires
                    p.wf(),
                    p@.rest() < n,
                ensures
                    runs(Expr::Rule(SyntaxKind::TERM), *old(p), *final(p))
                { p.term() },
        );
    }

    /// Parses an expression in parentheses.
    fn group(&mut self)
        requires
            old(self).wf(),
        ensures
            runs(grammar::group(), *old(self), *final(self)),
            advances(old(self)@, final(self)@),
        decreases old(self)@.rest(), 0nat,
    {
        let ghost n = self@.rest();
        proof {
            reveal(grammar::group);
        }
        self.expect_d(&TokenSet(&just(SyntaxKind::L_PAREN)), Some("expression"));
        self.one(
            Ghost(Expr::Rule(SyntaxKind::EXPR)),
            |p: &mut Self|
                requires
                    p.wf(),
                    p@.rest() < n,
                ensures
                    runs(Expr::Rule(SyntaxKind::EXPR), *old(p), *final(p))
                { p.expr() },
        );
        self.expect(&TokenSet(&just(SyntaxKind::R_PAREN)));
    }

    /// Parses a field of a structure.
    fn field(&mut self)
        requires
            old(self).wf(),
        ensures
            runs(grammar::field(), *old(self), *final(self)),
            advances(old(self)@, final(self)@),
    {
        proof {
            reveal(grammar::field);
        }
        self.expect(&TokenSet(&just(SyntaxKind::DOT)));
        self.expect(&TokenSet(&just(SyntaxKind::IDENT)));
    }

    /// Parses an identifier, and the fields that follow it.
    fn path(&mut self)
        requires
            old(self).wf(),
        ensures
            runs(grammar::path(), *old(self), *final(self)),
            advances(old(self)@, final(self)@),
    {
        proof {
            reveal(grammar::path);
        }
        self.expect_d(&TokenSet(&just(SyntaxKind::IDENT)), Some("expression"));
        assert(consumes(grammar::field())) by {
            broadcast use group_shapes;

            reveal(grammar::field);
        }
        self.zero_or_more(
            Ghost(grammar::field()),
            |p: &mut Self|
                requires
                    p.wf(),
                ensures
                    runs(grammar::field(), *old(p), *final(p))
                { p.field() },
        );
    }

    /// Parses the node of a primary expression.
    fn primary_node(&mut self)
        requires
            old(self).wf(),
        ensures
            runs(grammar::primary_node(), *old(self), *final(self)),
            advances(old(self)@, final(self)@),
        decreases old(self)@.rest(), 1nat,
    {
        let ghost s = self@;
        let ghost n = self@.rest();
        proof {
            self.lemma_wf();
            reveal(grammar::primary_node);
        }
        self.begin(SyntaxKind::PRIMARY_EXPR);
        let mut alternatives = self.begin_alt();
        self.alt(
            &mut alternatives,
            Ghost(grammar::literal()),
            |p: &mut Self|
                requires
                    p.wf(),
                ensures
                    runs(grammar::literal(), *old(p), *final(p))
                { p.literal() },
        );
        self.alt(
            &mut alternatives,
            Ghost(grammar::pattern_count()),
            |p: &mut Self|
                requires
                    p.wf(),
                    p@.rest() <= n,
                ensures
                    runs(grammar::pattern_count(), *old(p), *final(p))
                { p.pattern_count() },
        );
        self.alt(
            &mut alternatives,
            Ghost(grammar::pattern_match()),
            |p: &mut Self|
                requires
                    p.wf(),
                    p@.rest() <= n,
                ensures
                    runs(grammar::pattern_match(), *old(p), *final(p))
                { p.pattern_match() },
        );
        self.alt(
            &mut alternatives,
            Ghost(grammar::negation()),
            |p: &mut Self|
                requires
                    p.wf(),
                    p@.rest() <= n,
                ensures
                    runs(grammar::negation(), *old(p), *final(p))
                { p.negation() },
        );
        self.alt(
            &mut alternatives,
            Ghost(grammar::complement()),
            |p: &mut Self|
                requires
                    p.wf(),
                    p@.rest() <= n,
                ensures
                    runs(grammar::complement(), *old(p), *final(p))
                { p.complement() },
        );
        self.alt(
            &mut alternatives,
            Ghost(grammar::group()),
            |p: &mut Self|
                requires
                    p.wf(),
                    p@.rest() <= n,
                ensures
                    runs(grammar::group(), *old(p), *final(p))
                { p.group() },
        );
        self.alt(
            &mut alternatives,
            Ghost(grammar::path()),
            |p: &mut Self|
                requires
                    p.wf(),
                ensures
                    runs(grammar::path(), *old(p), *final(p))
                { p.path() },
        );
        self.end_alt(alternatives);
        self.end_node(SyntaxKind::PRIMARY_EXPR, Ghost(inner_of(grammar::primary_node())), Ghost(s));
    }

    /// Parses a primary expression.
    ///
    /// ```text
    /// PRIMARY_EXPR ::= (
    ///     FLOAT_LIT                          |
    ///     INTEGER_LIT                        |
    ///     STRING_LIT                         |
    ///     REGEXP                             |
    ///     `filesize`                         |
    ///     `entrypoint`                       |
    ///     PATTERN_COUNT ( `in` RANGE )?      |
    ///     PATTERN_OFFSET ( `[` EXPR `]` )?   |
    ///     PATTERN_LENGTH ( `[` EXPR `]` )?   |
    ///     `-` TERM                           |
    ///     `~` TERM                           |
    ///     `(` EXPR `)`                       |
    ///     IDENT ( `.` IDENT )*
    /// )
    /// ```
    pub(crate) fn primary_expr(&mut self)
        requires
            old(self).wf(),
        ensures
            runs(Expr::Rule(SyntaxKind::PRIMARY_EXPR), *old(self), *final(self)),
            advances(old(self)@, final(self)@),
        decreases old(self)@.rest(), 2nat,
    {
        let ghost n = self@.rest();
        proof {
            reveal(production);
            reveal(grammar::primary_expr);
        }
        assert(keeps_failure(grammar::primary_node())) by {
            broadcast use group_shapes;

            reveal(grammar::primary_node);
        }
        self.cached(
            SyntaxKind::PRIMARY_EXPR,
            Ghost(grammar::primary_node()),
            |p: &mut Self|
                requires
                    p.wf(),
                    p@.rest() <= n,
                ensures
                    runs(grammar::primary_node(), *old(p), *final(p))
                { p.primary_node() },
        );
        proof {
            lemma_rule(SyntaxKind::PRIMARY_EXPR, old(self)@, self@);
        }
    }

    /// Parses the patterns that a quantifier speaks of.
    fn pattern_choice(&mut self)
        requires
            old(self).wf(),
        ensures
            runs(grammar::pattern_choice(), *old(self), *final(self)),
            advances(old(self)@, final(self)@),
    {
        proof {
            reveal(grammar::pattern_choice);
        }
        let mut alternatives = self.begin_alt();
        self.alt(
            &mut alternatives,
            Ghost(grammar::token(seq![SyntaxKind::THEM_KW])),
            |p: &mut Self|
                requires
                    p.wf(),
                ensures
                    runs(grammar::token(seq![SyntaxKind::THEM_KW]), *old(p), *final(p))
                { p.expect(&TokenSet(&just(SyntaxKind::THEM_KW))) },
        );
        self.alt(
            &mut alternatives,
            Ghost(Expr::Rule(SyntaxKind::PATTERN_IDENT_TUPLE)),
            |p: &mut Self|
                requires
                    p.wf(),
                ensures
                    runs(Expr::Rule(SyntaxKind::PATTERN_IDENT_TUPLE), *old(p), *final(p))
                { p.pattern_ident_tuple() },
        );
        self.end_alt(alternatives);
    }

    /// Parses a loop over patterns.
    fn for_patterns(&mut self)
        requires
            old(self).wf(),
        ensures
            runs(grammar::for_patterns(), *old(self), *final(self)),
            advances(old(self)@, final(self)@),
    {
        proof {
            reveal(grammar::for_patterns);
        }
        self.expect(&TokenSet(&just(SyntaxKind::OF_KW)));
        self.pattern_choice();
    }

    /// Parses one more variable of a loop.
    fn more_idents(&mut self)
        requires
            old(self).wf(),
        ensures
            runs(grammar::more_idents(), *old(self), *final(self)),
            advances(old(self)@, final(self)@),
    {
        proof {
            reveal(grammar::more_idents);
        }
        self.expect(&TokenSet(&just(SyntaxKind::COMMA)));
        self.expect(&TokenSet(&just(SyntaxKind::IDENT)));
    }

    /// Parses a loop over the items of something.
    fn for_items(&mut self)
        requires
            old(self).wf(),
        ensures
            runs(grammar::for_items(), *old(self), *final(self)),
            advances(old(self)@, final(self)@),
        decreases old(self)@.rest(), 0nat,
    {
        let ghost n = self@.rest();
        proof {
            reveal(grammar::for_items);
        }
        self.expect(&TokenSet(&just(SyntaxKind::IDENT)));
        assert(consumes(grammar::more_idents())) by {
            broadcast use group_shapes;

            reveal(grammar::more_idents);
        }
        self.zero_or_more(
            Ghost(grammar::more_idents()),
            |p: &mut Self|
                requires
                    p.wf(),
                ensures
                    runs(grammar::more_idents(), *old(p), *final(p))
                { p.more_idents() },
        );
        self.expect(&TokenSet(&just(SyntaxKind::IN_KW)));
        self.one(
            Ghost(Expr::Rule(SyntaxKind::ITERABLE)),
            |p: &mut Self|
                requires
                    p.wf(),
                    p@.rest() < n,
                ensures
                    runs(Expr::Rule(SyntaxKind::ITERABLE), *old(p), *final(p))
                { p.iterable() },
        );
    }

    /// Parses a `for` expression.
    ///
    /// ```text
    /// FOR_EXPR ::= `for` QUANTIFIER (
    ///     `of` ( `them` | PATTERN_IDENT_TUPLE ) |
    ///     IDENT ( `,` IDENT )* `in` ITERABLE
    /// )
    /// `:` `(` BOOLEAN_EXPR `)`
    /// ```
    pub(crate) fn for_expr(&mut self)
        requires
            old(self).wf(),
        ensures
            runs(Expr::Rule(SyntaxKind::FOR_EXPR), *old(self), *final(self)),
            advances(old(self)@, final(self)@),
        decreases old(self)@.rest(), 0nat,
    {
        let ghost s = self@;
        let ghost n = self@.rest();
        proof {
            self.lemma_wf();
            reveal(production);
            reveal(grammar::for_expr);
        }
        self.begin(SyntaxKind::FOR_EXPR);
        self.expect(&TokenSet(&just(SyntaxKind::FOR_KW)));
        self.one(
            Ghost(Expr::Rule(SyntaxKind::QUANTIFIER)),
            |p: &mut Self|
                requires
                    p.wf(),
                    p@.rest() < n,
                ensures
                    runs(Expr::Rule(SyntaxKind::QUANTIFIER), *old(p), *final(p))
                { p.quantifier() },
        );
        let mut alternatives = self.begin_alt();
        self.alt(
            &mut alternatives,
            Ghost(grammar::for_patterns()),
            |p: &mut Self|
                requires
                    p.wf(),
                ensures
                    runs(grammar::for_patterns(), *old(p), *final(p))
                { p.for_patterns() },
        );
        self.alt(
            &mut alternatives,
            Ghost(grammar::for_items()),
            |p: &mut Self|
                requires
                    p.wf(),
                    p@.rest() < n,
                ensures
                    runs(grammar::for_items(), *old(p), *final(p))
                { p.for_items() },
        );
        self.end_alt(alternatives);
        self.expect(&TokenSet(&just(SyntaxKind::COLON)));
        self.expect(&TokenSet(&just(SyntaxKind::L_PAREN)));
        self.one(
            Ghost(Expr::Rule(SyntaxKind::BOOLEAN_EXPR)),
            |p: &mut Self|
                requires
                    p.wf(),
                    p@.rest() < n,
                ensures
                    runs(Expr::Rule(SyntaxKind::BOOLEAN_EXPR), *old(p), *final(p))
                { p.boolean_expr() },
        );
        self.expect(&TokenSet(&just(SyntaxKind::R_PAREN)));
        self.end_production(SyntaxKind::FOR_EXPR, Ghost(s));
    }

    /// Parses the offset at which patterns must be.
    fn at_offset(&mut self)
        requires
            old(self).wf(),
        ensures
            runs(grammar::at_offset(), *old(self), *final(self)),
            advances(old(self)@, final(self)@),
        decreases old(self)@.rest(), 0nat,
    {
        let ghost n = self@.rest();
        proof {
            reveal(grammar::at_offset);
        }
        self.expect(&TokenSet(&just(SyntaxKind::AT_KW)));
        self.one(
            Ghost(Expr::Rule(SyntaxKind::EXPR)),
            |p: &mut Self|
                requires
                    p.wf(),
                    p@.rest() < n,
                ensures
                    runs(Expr::Rule(SyntaxKind::EXPR), *old(p), *final(p))
                { p.expr() },
        );
    }

    /// Parses where patterns must be, if it is said: at an offset or in a range,
    /// but not both.
    fn anchor(&mut self)
        requires
            old(self).wf(),
        ensures
            runs(grammar::anchor(), *old(self), *final(self)),
            advances(old(self)@, final(self)@),
        decreases old(self)@.rest(), 1nat,
    {
        let ghost n = self@.rest();
        proof {
            reveal(grammar::anchor);
        }
        let ghost in_range = grammar::if_next(seq![SyntaxKind::IN_KW], grammar::in_range());
        self.if_next_else(
            &TokenSet(&just(SyntaxKind::AT_KW)),
            Ghost(grammar::at_offset()),
            Ghost(in_range),
            |p: &mut Self|
                requires
                    p.wf(),
                    p@.rest() <= n,
                ensures
                    runs(grammar::at_offset(), *old(p), *final(p))
                { p.at_offset() },
            |p: &mut Self|
                requires
                    p.wf(),
                    p@.rest() <= n,
                ensures
                    runs(in_range, *old(p), *final(p))
                {
                    p.if_next(
                        &TokenSet(&just(SyntaxKind::IN_KW)),
                        Ghost(grammar::in_range()),
                        |p: &mut Self|
                            requires
                                p.wf(),
                                p@.rest() <= n,
                            ensures
                                runs(grammar::in_range(), *old(p), *final(p))
                            { p.in_range() },
                    )
                },
        );
    }

    /// Parses some of the patterns, and where they must be.
    fn of_patterns(&mut self)
        requires
            old(self).wf(),
        ensures
            runs(grammar::of_patterns(), *old(self), *final(self)),
            advances(old(self)@, final(self)@),
        decreases old(self)@.rest(), 2nat,
    {
        proof {
            reveal(grammar::of_patterns);
        }
        self.pattern_choice();
        self.anchor();
    }

    /// Parses some of the expressions of a list.
    fn of_booleans(&mut self)
        requires
            old(self).wf(),
        ensures
            runs(grammar::of_booleans(), *old(self), *final(self)),
            advances(old(self)@, final(self)@),
        decreases old(self)@.rest(), 1nat,
    {
        proof {
            reveal(grammar::of_booleans);
        }
        self.boolean_expr_tuple();
        self.not(
            Ghost(grammar::token(seq![SyntaxKind::AT_KW, SyntaxKind::IN_KW])),
            |p: &mut Self|
                requires
                    p.wf(),
                ensures
                    runs(
                        grammar::token(seq![SyntaxKind::AT_KW, SyntaxKind::IN_KW]),
                        *old(p),
                        *final(p),
                    )
                { p.expect(&TokenSet(&either(SyntaxKind::AT_KW, SyntaxKind::IN_KW))) },
        );
    }

    /// Parses an `of` expression.
    ///
    /// ```text
    /// OF_EXPR ::= QUANTIFIER `of` (
    ///     ( `them` | PATTERN_IDENT_TUPLE ) ( `at` EXPR | `in` RANGE )? |
    ///     BOOLEAN_EXPR_TUPLE !( `at` | `in` )
    /// )
    /// ```
    pub(crate) fn of_expr(&mut self)
        requires
            old(self).wf(),
        ensures
            runs(Expr::Rule(SyntaxKind::OF_EXPR), *old(self), *final(self)),
            advances(old(self)@, final(self)@),
        decreases old(self)@.rest(), 7nat,
    {
        let ghost s = self@;
        let ghost n = self@.rest();
        proof {
            self.lemma_wf();
            reveal(production);
            reveal(grammar::of_expr);
        }
        self.begin(SyntaxKind::OF_EXPR);
        self.one(
            Ghost(Expr::Rule(SyntaxKind::QUANTIFIER)),
            |p: &mut Self|
                requires
                    p.wf(),
                    p@.rest() <= n,
                ensures
                    runs(Expr::Rule(SyntaxKind::QUANTIFIER), *old(p), *final(p))
                { p.quantifier() },
        );
        self.expect(&TokenSet(&just(SyntaxKind::OF_KW)));
        let mut alternatives = self.begin_alt();
        self.alt(
            &mut alternatives,
            Ghost(grammar::of_patterns()),
            |p: &mut Self|
                requires
                    p.wf(),
                    p@.rest() < n,
                ensures
                    runs(grammar::of_patterns(), *old(p), *final(p))
                { p.of_patterns() },
        );
        self.alt(
            &mut alternatives,
            Ghost(grammar::of_booleans()),
            |p: &mut Self|
                requires
                    p.wf(),
                    p@.rest() < n,
                ensures
                    runs(grammar::of_booleans(), *old(p), *final(p))
                { p.of_booleans() },
        );
        self.end_alt(alternatives);
        self.end_production(SyntaxKind::OF_EXPR, Ghost(s));
    }

    /// Parses a primary expression followed by a percent sign.
    fn percentage(&mut self)
        requires
            old(self).wf(),
        ensures
            runs(grammar::percentage(), *old(self), *final(self)),
            advances(old(self)@, final(self)@),
        decreases old(self)@.rest(), 4nat,
    {
        proof {
            reveal(grammar::percentage);
        }
        self.primary_expr();
        self.expect(&TokenSet(&just(SyntaxKind::PERCENT)));
    }

    /// Parses an expression that no percent sign follows.
    fn exact_count(&mut self)
        requires
            old(self).wf(),
        ensures
            runs(grammar::exact_count(), *old(self), *final(self)),
            advances(old(self)@, final(self)@),
        decreases old(self)@.rest(), 5nat,
    {
        proof {
            reveal(grammar::exact_count);
        }
        self.expr();
        self.not(
            Ghost(grammar::token(seq![SyntaxKind::PERCENT])),
            |p: &mut Self|
                requires
                    p.wf(),
                ensures
                    runs(grammar::token(seq![SyntaxKind::PERCENT]), *old(p), *final(p))
                { p.expect(&TokenSet(&just(SyntaxKind::PERCENT))) },
        );
    }

    /// Parses a quantifier.
    ///
    /// ```text
    /// QUANTIFIER ::= (
    ///     `all`             |
    ///     `none`            |
    ///     `any`             |
    ///     PRIMARY_EXPR `%`  |
    ///     EXPR !`%`
    /// )
    /// ```
    pub(crate) fn quantifier(&mut self)
        requires
            old(self).wf(),
        ensures
            runs(Expr::Rule(SyntaxKind::QUANTIFIER), *old(self), *final(self)),
            advances(old(self)@, final(self)@),
        decreases old(self)@.rest(), 6nat,
    {
        let ghost s = self@;
        let ghost n = self@.rest();
        proof {
            self.lemma_wf();
            reveal(production);
            reveal(grammar::quantifier);
        }
        self.begin(SyntaxKind::QUANTIFIER);
        let mut alternatives = self.begin_alt();
        self.alt(
            &mut alternatives,
            Ghost(
                grammar::token(seq![SyntaxKind::ALL_KW, SyntaxKind::NONE_KW, SyntaxKind::ANY_KW]),
            ),
            |p: &mut Self|
                requires
                    p.wf(),
                ensures
                    runs(
                        grammar::token(
                            seq![SyntaxKind::ALL_KW, SyntaxKind::NONE_KW, SyntaxKind::ANY_KW],
                        ),
                        *old(p),
                        *final(p),
                    )
                {
                    p.expect(&TokenSet(&any_of(
                        SyntaxKind::ALL_KW,
                        SyntaxKind::NONE_KW,
                        SyntaxKind::ANY_KW,
                    )))
                },
        );
        self.alt(
            &mut alternatives,
            Ghost(grammar::percentage()),
            |p: &mut Self|
                requires
                    p.wf(),
                    p@.rest() <= n,
                ensures
                    runs(grammar::percentage(), *old(p), *final(p))
                { p.percentage() },
        );
        self.alt(
            &mut alternatives,
            Ghost(grammar::exact_count()),
            |p: &mut Self|
                requires
                    p.wf(),
                    p@.rest() <= n,
                ensures
                    runs(grammar::exact_count(), *old(p), *final(p))
                { p.exact_count() },
        );
        self.end_alt(alternatives);
        self.end_production(SyntaxKind::QUANTIFIER, Ghost(s));
    }

    /// Parses something to iterate over.
    ///
    /// ```text
    /// ITERABLE ::= ( RANGE | EXPR_TUPLE | EXPR )
    /// ```
    pub(crate) fn iterable(&mut self)
        requires
            old(self).wf(),
        ensures
            runs(Expr::Rule(SyntaxKind::ITERABLE), *old(self), *final(self)),
            advances(old(self)@, final(self)@),
        decreases old(self)@.rest(), 6nat,
    {
        let ghost s = self@;
        let ghost n = self@.rest();
        proof {
            self.lemma_wf();
            reveal(production);
            reveal(grammar::iterable);
        }
        self.begin(SyntaxKind::ITERABLE);
        let mut alternatives = self.begin_alt();
        self.alt(
            &mut alternatives,
            Ghost(Expr::Rule(SyntaxKind::RANGE)),
            |p: &mut Self|
                requires
                    p.wf(),
                    p@.rest() <= n,
                ensures
                    runs(Expr::Rule(SyntaxKind::RANGE), *old(p), *final(p))
                { p.range() },
        );
        self.alt(
            &mut alternatives,
            Ghost(Expr::Rule(SyntaxKind::EXPR_TUPLE)),
            |p: &mut Self|
                requires
                    p.wf(),
                    p@.rest() <= n,
                ensures
                    runs(Expr::Rule(SyntaxKind::EXPR_TUPLE), *old(p), *final(p))
                { p.expr_tuple() },
        );
        self.alt(
            &mut alternatives,
            Ghost(Expr::Rule(SyntaxKind::EXPR)),
            |p: &mut Self|
                requires
                    p.wf(),
                    p@.rest() <= n,
                ensures
                    runs(Expr::Rule(SyntaxKind::EXPR), *old(p), *final(p))
                { p.expr() },
        );
        self.end_alt(alternatives);
        self.end_production(SyntaxKind::ITERABLE, Ghost(s));
    }

    /// Parses a tuple of boolean expressions.
    ///
    /// ```text
    /// BOOLEAN_EXPR_TUPLE ::= `(` BOOLEAN_EXPR ( `,` BOOLEAN_EXPR )* `)`
    /// ```
    pub(crate) fn boolean_expr_tuple(&mut self)
        requires
            old(self).wf(),
        ensures
            runs(Expr::Rule(SyntaxKind::BOOLEAN_EXPR_TUPLE), *old(self), *final(self)),
            advances(old(self)@, final(self)@),
        decreases old(self)@.rest(), 0nat,
    {
        let ghost s = self@;
        let ghost n = self@.rest();
        proof {
            self.lemma_wf();
            reveal(production);
            reveal(grammar::boolean_expr_tuple);
        }
        self.begin(SyntaxKind::BOOLEAN_EXPR_TUPLE);
        self.expect(&TokenSet(&just(SyntaxKind::L_PAREN)));
        self.one(
            Ghost(Expr::Rule(SyntaxKind::BOOLEAN_EXPR)),
            |p: &mut Self|
                requires
                    p.wf(),
                    p@.rest() < n,
                ensures
                    runs(Expr::Rule(SyntaxKind::BOOLEAN_EXPR), *old(p), *final(p))
                { p.boolean_expr() },
        );
        assert(consumes(grammar::more_booleans())) by {
            broadcast use group_shapes;

            reveal(grammar::more_booleans);
        }
        self.zero_or_more(
            Ghost(grammar::more_booleans()),
            |p: &mut Self|
                requires
                    p.wf(),
                    p@.rest() < n,
                ensures
                    runs(grammar::more_booleans(), *old(p), *final(p))
                { p.more_booleans() },
        );
        self.expect(&TokenSet(&just(SyntaxKind::R_PAREN)));
        self.end_production(SyntaxKind::BOOLEAN_EXPR_TUPLE, Ghost(s));
    }

    /// Parses one more expression of a list.
    fn more_exprs(&mut self)
        requires
            old(self).wf(),
        ensures
            runs(grammar::more_exprs(), *old(self), *final(self)),
            advances(old(self)@, final(self)@),
        decreases old(self)@.rest(), 0nat,
    {
        let ghost n = self@.rest();
        proof {
            reveal(grammar::more_exprs);
        }
        self.expect(&TokenSet(&just(SyntaxKind::COMMA)));
        self.one(
            Ghost(Expr::Rule(SyntaxKind::EXPR)),
            |p: &mut Self|
                requires
                    p.wf(),
                    p@.rest() < n,
                ensures
                    runs(Expr::Rule(SyntaxKind::EXPR), *old(p), *final(p))
                { p.expr() },
        );
    }

    /// Parses a tuple of expressions.
    ///
    /// ```text
    /// EXPR_TUPLE ::= `(` EXPR ( `,` EXPR )* `)`
    /// ```
    pub(crate) fn expr_tuple(&mut self)
        requires
            old(self).wf(),
        ensures
            runs(Expr::Rule(SyntaxKind::EXPR_TUPLE), *old(self), *final(self)),
            advances(old(self)@, final(self)@),
        decreases old(self)@.rest(), 0nat,
    {
        let ghost s = self@;
        let ghost n = self@.rest();
        proof {
            self.lemma_wf();
            reveal(production);
            reveal(grammar::expr_tuple);
        }
        self.begin(SyntaxKind::EXPR_TUPLE);
        self.expect(&TokenSet(&just(SyntaxKind::L_PAREN)));
        self.one(
            Ghost(Expr::Rule(SyntaxKind::EXPR)),
            |p: &mut Self|
                requires
                    p.wf(),
                    p@.rest() < n,
                ensures
                    runs(Expr::Rule(SyntaxKind::EXPR), *old(p), *final(p))
                { p.expr() },
        );
        assert(consumes(grammar::more_exprs())) by {
            broadcast use group_shapes;

            reveal(grammar::more_exprs);
        }
        self.zero_or_more(
            Ghost(grammar::more_exprs()),
            |p: &mut Self|
                requires
                    p.wf(),
                    p@.rest() < n,
                ensures
                    runs(grammar::more_exprs(), *old(p), *final(p))
                { p.more_exprs() },
        );
        self.expect(&TokenSet(&just(SyntaxKind::R_PAREN)));
        self.end_production(SyntaxKind::EXPR_TUPLE, Ghost(s));
    }

    /// Parses one more pattern identifier of a list.
    fn more_pattern_idents(&mut self)
        requires
            old(self).wf(),
        ensures
            runs(grammar::more_pattern_idents(), *old(self), *final(self)),
            advances(old(self)@, final(self)@),
    {
        proof {
            reveal(grammar::more_pattern_idents);
        }
        self.expect(&TokenSet(&just(SyntaxKind::COMMA)));
        self.expect(&TokenSet(&just(SyntaxKind::PATTERN_IDENT)));
        self.opt_expect(&TokenSet(&just(SyntaxKind::ASTERISK)));
    }

    /// Parses a tuple of pattern identifiers.
    ///
    /// ```text
    /// PATTERN_IDENT_TUPLE ::= `(` PATTERN_IDENT `*`? ( `,` PATTERN_IDENT `*`? )* `)`
    /// ```
    pub(crate) fn pattern_ident_tuple(&mut self)
        requires
            old(self).wf(),
        ensures
            runs(Expr::Rule(SyntaxKind::PATTERN_IDENT_TUPLE), *old(self), *final(self)),
            advances(old(self)@, final(self)@),
    {
        let ghost s = self@;
        proof {
            self.lemma_wf();
            reveal(production);
            reveal(grammar::pattern_ident_tuple);
        }
        self.begin(SyntaxKind::PATTERN_IDENT_TUPLE);
        self.expect(&TokenSet(&just(SyntaxKind::L_PAREN)));
        self.expect(&TokenSet(&just(SyntaxKind::PATTERN_IDENT)));
        self.opt_expect(&TokenSet(&just(SyntaxKind::ASTERISK)));
        assert(consumes(grammar::more_pattern_idents())) by {
            broadcast use group_shapes;

            reveal(grammar::more_pattern_idents);
        }
        self.zero_or_more(
            Ghost(grammar::more_pattern_idents()),
            |p: &mut Self|
                requires
                    p.wf(),
                ensures
                    runs(grammar::more_pattern_idents(), *old(p), *final(p))
                { p.more_pattern_idents() },
        );
        self.expect(&TokenSet(&just(SyntaxKind::R_PAREN)));
        self.end_production(SyntaxKind::PATTERN_IDENT_TUPLE, Ghost(s));
    }
}

} // verus!
