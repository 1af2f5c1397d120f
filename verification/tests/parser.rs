//! Whole sources.

use yara_syntax::cst::{Element, Node};
use yara_syntax::event::Event;
use yara_syntax::parser::Parser;
use yara_syntax::span::Span;
use yara_syntax::syntax_kind::SyntaxKind;

/// The tree with a line for each node and each token, without whitespaces.
fn outline(source: &str) -> String {
    let cst = Parser::new(source.as_bytes()).whitespaces(false).build_cst();
    let mut lines = String::new();
    add_node(source, cst.root(), 0, &mut lines);
    lines
}

fn add_node(source: &str, node: &Node, depth: usize, lines: &mut String) {
    lines.push_str(&format!("{}{:?}\n", "  ".repeat(depth), node.kind));
    for child in &node.children {
        match child {
            Element::Node(node) => add_node(source, node, depth + 1, lines),
            Element::Token { kind, span } => lines.push_str(&format!(
                "{}{:?} {:?}\n",
                "  ".repeat(depth + 1),
                kind,
                &source[span.start..span.end]
            )),
        }
    }
}

/// The messages of the errors, with the text that they are about.
fn errors(source: &str) -> Vec<(String, String)> {
    let cst = Parser::new(source.as_bytes()).build_cst();
    cst.errors()
        .iter()
        .map(|error| {
            let text = &source[error.span.start..error.span.end];
            (error.message.clone(), text.to_string())
        })
        .collect()
}

/// The condition of a rule is parsed without errors.
fn is_condition(condition: &str) -> bool {
    let source = format!("rule test {{ condition: {} }}", condition);
    errors(&source).is_empty() && !outline(&source).contains("ERROR")
}

#[test]
fn events_of_an_import() {
    let source = b"import \"math\"";
    let expected = vec![
        Event::Begin(SyntaxKind::SOURCE_FILE),
        Event::Begin(SyntaxKind::IMPORT_STMT),
        Event::Token { kind: SyntaxKind::IMPORT_KW, span: Span { start: 0, end: 6 } },
        Event::Token { kind: SyntaxKind::WHITESPACE, span: Span { start: 6, end: 7 } },
        Event::Token { kind: SyntaxKind::STRING_LIT, span: Span { start: 7, end: 13 } },
        Event::End(SyntaxKind::IMPORT_STMT),
        Event::End(SyntaxKind::SOURCE_FILE),
    ];
    assert_eq!(Parser::new(source).events().into_vec(), expected);
    let mut events = Parser::new(source).events();
    for event in expected {
        assert_eq!(events.next(), Some(event));
    }
    assert_eq!(events.next(), None);
    assert_eq!(events.next(), None);
}

#[test]
fn events_without_whitespaces() {
    let source = b" import\t// a\n\"math\"";
    let parser = Parser::new(source).whitespaces(false);
    assert_eq!(parser.source(), source);
    assert_eq!(
        parser.events().into_vec(),
        vec![
            Event::Begin(SyntaxKind::SOURCE_FILE),
            Event::Begin(SyntaxKind::IMPORT_STMT),
            Event::Token { kind: SyntaxKind::IMPORT_KW, span: Span { start: 1, end: 7 } },
            Event::Token { kind: SyntaxKind::COMMENT, span: Span { start: 8, end: 12 } },
            Event::Token { kind: SyntaxKind::NEWLINE, span: Span { start: 12, end: 13 } },
            Event::Token { kind: SyntaxKind::STRING_LIT, span: Span { start: 13, end: 19 } },
            Event::End(SyntaxKind::IMPORT_STMT),
            Event::End(SyntaxKind::SOURCE_FILE),
        ]
    );
    let all = Parser::new(source).whitespaces(false).whitespaces(true).events().into_vec();
    assert_eq!(all.len(), 10);
}

#[test]
fn no_source_at_all() {
    assert_eq!(
        Parser::new(b"").events().into_vec(),
        vec![Event::Begin(SyntaxKind::SOURCE_FILE), Event::End(SyntaxKind::SOURCE_FILE)]
    );
    assert_eq!(outline("  // c"), "SOURCE_FILE\n  COMMENT \"// c\"\n");
}

#[test]
fn a_rule_with_metadata() {
    let source = "private rule a : b c { meta: x = 1 y = -2.5 z = \"s\" t = true condition: true }";
    assert!(errors(source).is_empty());
    let expected = [
        "SOURCE_FILE",
        "  RULE_DECL",
        "    RULE_MODS",
        "      PRIVATE_KW \"private\"",
        "    RULE_KW \"rule\"",
        "    IDENT \"a\"",
        "    RULE_TAGS",
        "      COLON \":\"",
        "      IDENT \"b\"",
        "      IDENT \"c\"",
        "    L_BRACE \"{\"",
        "    META_BLK",
        "      META_KW \"meta\"",
        "      COLON \":\"",
        "      META_DEF",
        "        IDENT \"x\"",
        "        EQUAL \"=\"",
        "        INTEGER_LIT \"1\"",
        "      META_DEF",
        "        IDENT \"y\"",
        "        EQUAL \"=\"",
        "        MINUS \"-\"",
        "        FLOAT_LIT \"2.5\"",
        "      META_DEF",
        "        IDENT \"z\"",
        "        EQUAL \"=\"",
        "        STRING_LIT \"\\\"s\\\"\"",
        "      META_DEF",
        "        IDENT \"t\"",
        "        EQUAL \"=\"",
        "        TRUE_KW \"true\"",
        "    CONDITION_BLK",
        "      CONDITION_KW \"condition\"",
        "      COLON \":\"",
        "      BOOLEAN_EXPR",
        "        BOOLEAN_TERM",
        "          TRUE_KW \"true\"",
        "    R_BRACE \"}\"",
    ];
    assert_eq!(outline(source).lines().collect::<Vec<_>>(), expected);
}

#[test]
fn a_rule_with_patterns() {
    let source = "rule a { strings: $a = \"x\" ascii xor(1-2) $b = /re/i \
                  $c = { 01 ?? [2-4] ( 02 | ~03 ) [-] 04 } \
                  condition: $a at 10 and #a in (0..10) == 1 }";
    assert!(errors(source).is_empty());
    let expected = [
        "SOURCE_FILE",
        "  RULE_DECL",
        "    RULE_KW \"rule\"",
        "    IDENT \"a\"",
        "    L_BRACE \"{\"",
        "    PATTERNS_BLK",
        "      STRINGS_KW \"strings\"",
        "      COLON \":\"",
        "      PATTERN_DEF",
        "        PATTERN_IDENT \"$a\"",
        "        EQUAL \"=\"",
        "        STRING_LIT \"\\\"x\\\"\"",
        "        PATTERN_MODS",
        "          PATTERN_MOD",
        "            ASCII_KW \"ascii\"",
        "          PATTERN_MOD",
        "            XOR_KW \"xor\"",
        "            L_PAREN \"(\"",
        "            INTEGER_LIT \"1\"",
        "            HYPHEN \"-\"",
        "            INTEGER_LIT \"2\"",
        "            R_PAREN \")\"",
        "      PATTERN_DEF",
        "        PATTERN_IDENT \"$b\"",
        "        EQUAL \"=\"",
        "        REGEXP \"/re/i\"",
        "      PATTERN_DEF",
        "        PATTERN_IDENT \"$c\"",
        "        EQUAL \"=\"",
        "        HEX_PATTERN",
        "          L_BRACE \"{\"",
        "          HEX_SUB_PATTERN",
        "            HEX_BYTE \"01\"",
        "            HEX_BYTE \"??\"",
        "            HEX_JUMP",
        "              L_BRACKET \"[\"",
        "              INTEGER_LIT \"2\"",
        "              HYPHEN \"-\"",
        "              INTEGER_LIT \"4\"",
        "              R_BRACKET \"]\"",
        "            HEX_ALTERNATIVE",
        "              L_PAREN \"(\"",
        "              HEX_SUB_PATTERN",
        "                HEX_BYTE \"02\"",
        "              PIPE \"|\"",
        "              HEX_SUB_PATTERN",
        "                HEX_BYTE \"~03\"",
        "              R_PAREN \")\"",
        "            HEX_JUMP",
        "              L_BRACKET \"[\"",
        "              HYPHEN \"-\"",
        "              R_BRACKET \"]\"",
        "            HEX_BYTE \"04\"",
        "          R_BRACE \"}\"",
        "    CONDITION_BLK",
        "      CONDITION_KW \"condition\"",
        "      COLON \":\"",
        "      BOOLEAN_EXPR",
        "        BOOLEAN_TERM",
        "          PATTERN_IDENT \"$a\"",
        "          AT_KW \"at\"",
        "          EXPR",
        "            TERM",
        "              PRIMARY_EXPR",
        "                INTEGER_LIT \"10\"",
        "        AND_KW \"and\"",
        "        BOOLEAN_TERM",
        "          EXPR",
        "            TERM",
        "              PRIMARY_EXPR",
        "                PATTERN_COUNT \"#a\"",
        "                IN_KW \"in\"",
        "                RANGE",
        "                  L_PAREN \"(\"",
        "                  EXPR",
        "                    TERM",
        "                      PRIMARY_EXPR",
        "                        INTEGER_LIT \"0\"",
        "                  DOT \".\"",
        "                  DOT \".\"",
        "                  EXPR",
        "                    TERM",
        "                      PRIMARY_EXPR",
        "                        INTEGER_LIT \"10\"",
        "                  R_PAREN \")\"",
        "          EQ \"==\"",
        "          EXPR",
        "            TERM",
        "              PRIMARY_EXPR",
        "                INTEGER_LIT \"1\"",
        "    R_BRACE \"}\"",
    ];
    assert_eq!(outline(source).lines().collect::<Vec<_>>(), expected);
}

#[test]
fn a_percentage() {
    let source = "rule a { condition: 10% of them }";
    assert!(errors(source).is_empty());
    let expected = [
        "SOURCE_FILE",
        "  RULE_DECL",
        "    RULE_KW \"rule\"",
        "    IDENT \"a\"",
        "    L_BRACE \"{\"",
        "    CONDITION_BLK",
        "      CONDITION_KW \"condition\"",
        "      COLON \":\"",
        "      BOOLEAN_EXPR",
        "        BOOLEAN_TERM",
        "          OF_EXPR",
        "            QUANTIFIER",
        "              PRIMARY_EXPR",
        "                INTEGER_LIT \"10\"",
        "              PERCENT \"%\"",
        "            OF_KW \"of\"",
        "            THEM_KW \"them\"",
        "    R_BRACE \"}\"",
    ];
    assert_eq!(outline(source).lines().collect::<Vec<_>>(), expected);
}

/// Patterns are at an offset or in a range, and not both.
#[test]
fn an_offset_and_a_range() {
    let expected = [
        "          OF_EXPR",
        "            QUANTIFIER",
        "              ANY_KW \"any\"",
        "            OF_KW \"of\"",
        "            THEM_KW \"them\"",
        "            AT_KW \"at\"",
        "            EXPR",
        "              TERM",
        "                PRIMARY_EXPR",
        "                  INTEGER_LIT \"1\"",
    ];
    let source = "rule a { condition: any of them at 1 }";
    assert!(errors(source).is_empty());
    let tree = outline(source);
    let lines: Vec<&str> = tree.lines().collect();
    assert_eq!(lines[10..20], expected);
    assert_eq!(lines[20..], ["    R_BRACE \"}\""]);
    // What follows the offset is not part of the expression.
    let source = "rule a { condition: any of them at 1 in (1..2) }";
    let tree = outline(source);
    let lines: Vec<&str> = tree.lines().collect();
    assert_eq!(lines[10..20], expected);
    assert_eq!(lines[20..23], ["    ERROR", "      IN_KW \"in\"", "      L_PAREN \"(\""]);
    assert_eq!(lines[27..], ["      R_PAREN \")\"", "    R_BRACE \"}\""]);
    let found = errors(source);
    assert_eq!(found[0].1, "in");
    assert!(found[0].0.ends_with(" or `}`, found `in`"), "{}", found[0].0);
}

/// The next token decides between an offset and a range, whatever follows it.
#[test]
fn an_offset_that_is_missing() {
    let expected = [("expecting `(`, found `them`".to_string(), "them".to_string())];
    assert_eq!(errors("rule a { condition: any of them at"), expected);
    let expected = [("expecting `at`, found `in`".to_string(), "in".to_string())];
    assert_eq!(errors("rule a { condition: any of them in"), expected);
    let found = errors("rule a { condition: any of them foo }");
    assert!(found[0].0.contains("`at`, `in`"), "{}", found[0].0);
    let found = errors("rule a { condition: any of them at }");
    assert_eq!(found, [("expecting expression, found `}`".to_string(), "}".to_string())]);
}

/// The kinds of the nodes and tokens of each item, in order.
fn items(source: &str) -> Vec<Vec<String>> {
    let mut items: Vec<Vec<String>> = Vec::new();
    for line in outline(source).lines().skip(1) {
        let level = line.len() - line.trim_start().len();
        let kind = line.trim_start().split(' ').next().unwrap().to_string();
        if level == 2 {
            items.push(vec![kind]);
        } else if level == 4 {
            items.last_mut().unwrap().push(kind);
        }
    }
    items
}

/// A rule without errors has all its parts, and one with errors may lack some.
#[test]
fn complete_rules() {
    let whole = ["RULE_DECL", "RULE_KW", "IDENT", "L_BRACE", "CONDITION_BLK", "R_BRACE"];
    let source = "rule a { condition: true }";
    assert!(errors(source).is_empty());
    assert_eq!(items(source), [whole]);
    // The error is about the name that is missing.
    let source = "rule { condition: true }";
    assert_eq!(errors(source).len(), 1);
    assert_eq!(
        items(source),
        [["RULE_DECL", "RULE_KW", "L_BRACE", "CONDITION_BLK", "R_BRACE"]]
    );
    // What is wrong in a rule says nothing about the next one.
    let source = "rule { condition: true } rule a { condition: true }";
    assert!(!errors(source).is_empty());
    assert_eq!(items(source)[1], whole);
    // A source that ends early has an error node, though no token is wrong.
    let source = "rule a { condition: true";
    assert!(errors(source).is_empty());
    assert_eq!(items(source)[0][0], "ERROR");
}

#[test]
fn tokens_that_start_no_item() {
    let source = "foo rule a { condition: true } bar";
    let expected = [
        ("expecting import statement or rule definition, found identifier", "foo"),
        ("expecting import statement or rule definition, found identifier", "bar"),
    ];
    assert_eq!(errors(source), expected.map(|(m, t)| (m.to_string(), t.to_string())));
    let expected = [
        "SOURCE_FILE",
        "  ERROR",
        "    IDENT \"foo\"",
        "  RULE_DECL",
        "    RULE_KW \"rule\"",
        "    IDENT \"a\"",
        "    L_BRACE \"{\"",
        "    CONDITION_BLK",
        "      CONDITION_KW \"condition\"",
        "      COLON \":\"",
        "      BOOLEAN_EXPR",
        "        BOOLEAN_TERM",
        "          TRUE_KW \"true\"",
        "    R_BRACE \"}\"",
        "  ERROR",
        "    IDENT \"bar\"",
    ];
    assert_eq!(outline(source).lines().collect::<Vec<_>>(), expected);
}

#[test]
fn a_token_that_is_missing() {
    let source = "rule { condition: true }";
    let expected = [
        ("expecting identifier, found `{`", "{"),
    ];
    assert_eq!(errors(source), expected.map(|(m, t)| (m.to_string(), t.to_string())));
    let expected = [
        "SOURCE_FILE",
        "  RULE_DECL",
        "    RULE_KW \"rule\"",
        "    L_BRACE \"{\"",
        "    CONDITION_BLK",
        "      CONDITION_KW \"condition\"",
        "      COLON \":\"",
        "      BOOLEAN_EXPR",
        "        BOOLEAN_TERM",
        "          TRUE_KW \"true\"",
        "    R_BRACE \"}\"",
    ];
    assert_eq!(outline(source).lines().collect::<Vec<_>>(), expected);
}

#[test]
fn a_block_that_is_wrong() {
    let source = "rule a { meta: a 1 condition: true }";
    let expected = [
        ("expecting `=`, found `1`", "1"),
    ];
    assert_eq!(errors(source), expected.map(|(m, t)| (m.to_string(), t.to_string())));
    let expected = [
        "SOURCE_FILE",
        "  RULE_DECL",
        "    RULE_KW \"rule\"",
        "    IDENT \"a\"",
        "    L_BRACE \"{\"",
        "    ERROR",
        "      META_KW \"meta\"",
        "      COLON \":\"",
        "      ERROR",
        "        IDENT \"a\"",
        "    ERROR",
        "      INTEGER_LIT \"1\"",
        "    CONDITION_BLK",
        "      CONDITION_KW \"condition\"",
        "      COLON \":\"",
        "      BOOLEAN_EXPR",
        "        BOOLEAN_TERM",
        "          TRUE_KW \"true\"",
        "    R_BRACE \"}\"",
    ];
    assert_eq!(outline(source).lines().collect::<Vec<_>>(), expected);
}

#[test]
fn all_that_was_expected() {
    let source = "rule a { strings: $a = \"x\" foo condition: true }";
    let expected = [
        ("expecting pattern modifier, pattern identifier or `condition`, found `foo`", "foo"),
    ];
    assert_eq!(errors(source), expected.map(|(m, t)| (m.to_string(), t.to_string())));
    let expected = [
        "SOURCE_FILE",
        "  RULE_DECL",
        "    RULE_KW \"rule\"",
        "    IDENT \"a\"",
        "    L_BRACE \"{\"",
        "    PATTERNS_BLK",
        "      STRINGS_KW \"strings\"",
        "      COLON \":\"",
        "      PATTERN_DEF",
        "        PATTERN_IDENT \"$a\"",
        "        EQUAL \"=\"",
        "        STRING_LIT \"\\\"x\\\"\"",
        "    ERROR",
        "      IDENT \"foo\"",
        "    CONDITION_BLK",
        "      CONDITION_KW \"condition\"",
        "      COLON \":\"",
        "      BOOLEAN_EXPR",
        "        BOOLEAN_TERM",
        "          TRUE_KW \"true\"",
        "    R_BRACE \"}\"",
    ];
    assert_eq!(outline(source).lines().collect::<Vec<_>>(), expected);
}

#[test]
fn a_token_that_should_not_be_there() {
    let source = "rule a { condition: any of (true, false) at 10 }";
    let expected = [
        ("unexpected `at`", "at"),
    ];
    assert_eq!(errors(source), expected.map(|(m, t)| (m.to_string(), t.to_string())));
    let expected = [
        "SOURCE_FILE",
        "  RULE_DECL",
        "    RULE_KW \"rule\"",
        "    IDENT \"a\"",
        "    L_BRACE \"{\"",
        "    ERROR",
        "      CONDITION_KW \"condition\"",
        "      COLON \":\"",
        "      ERROR",
        "        ERROR",
        "    ERROR",
        "      ANY_KW \"any\"",
        "      OF_KW \"of\"",
        "      L_PAREN \"(\"",
        "      TRUE_KW \"true\"",
        "      COMMA \",\"",
        "      FALSE_KW \"false\"",
        "      R_PAREN \")\"",
        "      AT_KW \"at\"",
        "      INTEGER_LIT \"10\"",
        "    R_BRACE \"}\"",
    ];
    assert_eq!(outline(source).lines().collect::<Vec<_>>(), expected);
}

#[test]
fn a_hex_pattern_that_is_not_closed() {
    let source = "rule a { strings: $a = { 01 [1- condition: true }";
    let expected = [
        ("expecting integer literal or `]`, found `condition`", "condition"),
    ];
    assert_eq!(errors(source), expected.map(|(m, t)| (m.to_string(), t.to_string())));
    let expected = [
        "SOURCE_FILE",
        "  RULE_DECL",
        "    RULE_KW \"rule\"",
        "    IDENT \"a\"",
        "    L_BRACE \"{\"",
        "    ERROR",
        "      STRINGS_KW \"strings\"",
        "      COLON \":\"",
        "      ERROR",
        "        PATTERN_IDENT \"$a\"",
        "        EQUAL \"=\"",
        "    ERROR",
        "      L_BRACE \"{\"",
        "      INTEGER_LIT \"01\"",
        "      L_BRACKET \"[\"",
        "      INTEGER_LIT \"1\"",
        "      HYPHEN \"-\"",
        "    CONDITION_BLK",
        "      CONDITION_KW \"condition\"",
        "      COLON \":\"",
        "      BOOLEAN_EXPR",
        "        BOOLEAN_TERM",
        "          TRUE_KW \"true\"",
        "    R_BRACE \"}\"",
    ];
    assert_eq!(outline(source).lines().collect::<Vec<_>>(), expected);
}

#[test]
fn an_import_that_is_wrong() {
    let source = "import import \"x\"";
    let expected = [
        ("expecting string literal, found `import`", "import"),
    ];
    assert_eq!(errors(source), expected.map(|(m, t)| (m.to_string(), t.to_string())));
    let expected = [
        "SOURCE_FILE",
        "  ERROR",
        "    IMPORT_KW \"import\"",
        "  IMPORT_STMT",
        "    IMPORT_KW \"import\"",
        "    STRING_LIT \"\\\"x\\\"\"",
    ];
    assert_eq!(outline(source).lines().collect::<Vec<_>>(), expected);
}

#[test]
fn a_source_that_ends_early() {
    let source = "rule a {";
    assert!(errors(source).is_empty());
    let expected = [
        "SOURCE_FILE",
        "  ERROR",
        "    RULE_KW \"rule\"",
        "    IDENT \"a\"",
        "    L_BRACE \"{\"",
        "    ERROR",
    ];
    assert_eq!(outline(source).lines().collect::<Vec<_>>(), expected);
}

#[test]
fn conditions() {
    for condition in [
        "true",
        "false",
        "not true",
        "defined x",
        "$a",
        "$a at 1",
        "$a in (0..10)",
        "#a == 1",
        "@a[1] < 2",
        "!a[1] > 2",
        "1 + 2 * 3 - 4 \\ 5 % 6 << 7 >> 8 & 9 | 10 ^ 11 == ~12",
        "x.y.z(1)",
        "f()",
        "f(1,2)",
        "a[1]",
        "(1)",
        "(true)",
        "(1 + 2) == 3",
        "all of them",
        "any of ($a*, $b)",
        "none of them",
        "2 of them",
        "50% of them",
        "all of ($a) at 1",
        "any of them in (1..2)",
        "any of them at 1",
        "any of ($a, $b) in (1..2)",
        "any of (true, 1 == 1)",
        "for any of them : ( $ )",
        "for all i in (1..2) : ( true )",
        "for all i, j in x : ( true )",
        "for 2 i in (1,2,3) : ( i == 1 )",
        "\"a\" contains \"b\"",
        "x matches /a/i",
        "1.5 > 1",
        "filesize > 1KB",
        "entrypoint == 0x10",
        "-1 < 0",
        "#a in (1..2) > 3",
    ] {
        assert!(is_condition(condition), "{}", condition);
    }
}

#[test]
fn not_conditions() {
    for condition in [
        "",
        "and",
        "true false",
        "1 +",
        "all of",
        "for all i in (1..2) : true",
        "any of (true) in (1..2)",
        "any of them at 1 in (1..2)",
        "any of them in (1..2) at 1",
        "all of ($a) at 1 in (1..2)",
        "(1",
        "f(1",
        "#a in 1",
        "$a at",
    ] {
        assert!(!is_condition(condition), "{}", condition);
    }
}

/// The tokens of the tree are the source, and the nodes are nested.
fn is_lossless(source: &[u8]) {
    let mut at = 0;
    let mut open = Vec::new();
    for event in Parser::new(source).events().into_vec() {
        match event {
            Event::Begin(kind) => open.push(kind),
            Event::End(kind) => assert_eq!(open.pop(), Some(kind)),
            Event::Token { span, .. } => {
                assert_eq!(span.start, at);
                assert!(span.start < span.end);
                at = span.end;
            }
            Event::Error { span, .. } => assert!(span.end <= source.len()),
        }
    }
    assert_eq!(at, source.len());
    assert!(open.is_empty());
}

#[test]
fn nothing_is_lost() {
    let source = "import \"a\" rule a : t { meta: m = 1 strings: $a = { 01 [1-2] 02 } \
                  condition: for any i in (1..2) : ( $a at i ) and any of (true) in (1..2) }";
    is_lossless(source.as_bytes());
    for end in 0..source.len() {
        is_lossless(&source.as_bytes()[..end]);
        is_lossless(&source.as_bytes()[end..]);
    }
    is_lossless(&[255, 254, 0, 13, 10, 47, 42, 34, 92]);
    is_lossless(b"}{)(][ $ # @ ! ~ /* // rule rule rule { { condition condition : :");
}

/// The node of the whole file is around everything, and there is only one.
#[test]
fn one_node_for_the_file() {
    let begin = Event::Begin(SyntaxKind::SOURCE_FILE);
    let end = Event::End(SyntaxKind::SOURCE_FILE);
    let sources: [&[u8]; 5] =
        [b"", b" ", b"} import 1 foo", b"rule a { condition: true } x", b"rule a { meta: 1 \xff"];
    for source in sources {
        let all = Parser::new(source).events().into_vec();
        assert_eq!(all.first(), Some(&begin));
        assert_eq!(all.last(), Some(&end));
        assert_eq!(all.iter().filter(|event| **event == begin).count(), 1);
        assert_eq!(all.iter().filter(|event| **event == end).count(), 1);
        let mut events = Parser::new(source).events();
        for event in all {
            assert_eq!(events.next(), Some(event));
        }
        assert_eq!(events.next(), None);
        assert_eq!(events.next(), None);
    }
}

/// Parsing the same source gives the same events.
#[test]
fn parsing_again() {
    let source = b"rule a { strings: $a = \"x\" foo condition: any of (true) at 1 } import 1";
    let first = Parser::new(source).events().into_vec();
    let second = Parser::new(source).events().into_vec();
    assert_eq!(first, second);
}

/// The events without whitespaces are the others, in the same order.
#[test]
fn whitespaces_are_left_out() {
    let source = b"rule a { meta: \n\n b = 1 // c\n condition: any of (true) at 1 }";
    let mut all = Parser::new(source).events().into_vec();
    all.retain(|event| !matches!(event, Event::Token { kind: SyntaxKind::WHITESPACE, .. }));
    assert_eq!(Parser::new(source).whitespaces(false).events().into_vec(), all);
}

/// What is in a rule is parsed the same way whatever is around it.
#[test]
fn errors_do_not_spread() {
    let good = "rule a { condition: true }";
    let bad = "rule { condition: 1 + }";
    assert_eq!(outline(&format!("{} {} {}", good, bad, good)).matches("RULE_DECL").count(), 3);
    let (first, second) = (errors(bad), errors(&format!("{} {} {}", good, bad, good)));
    assert_eq!(first, second);
}

/// Only the first error for a place is reported.
#[test]
fn one_error_for_each_place() {
    let source = "rule a { condition: any of (true) at 10 } rule b { meta: a 1 1 condition: true }";
    let cst = Parser::new(source.as_bytes()).build_cst();
    let mut spans: Vec<Span> = cst.errors().iter().map(|error| error.span).collect();
    let len = spans.len();
    assert!(len > 1);
    spans.dedup();
    assert_eq!(spans.len(), len);
}

/// Bytes that are not text stand as such in the messages.
#[test]
fn errors_about_what_is_not_text() {
    let cst = Parser::new(b"rule \xff { condition: true }").build_cst();
    assert_eq!(cst.errors().len(), 1);
    assert_eq!(cst.errors()[0].message, "expecting identifier, found `\u{fffd}`");
    assert_eq!(cst.errors()[0].span, Span { start: 5, end: 6 });
}

/// A primary expression that is tried again where it failed or fitted: as a
/// quantifier with a percent sign and without one, and as an expression.
#[test]
fn the_same_place_again() {
    assert!(is_condition("1 of them"));
    assert!(is_condition("1 == 1"));
    assert!(is_condition("(1) == 1"));
    assert!(is_condition("((((true))))"));
    assert!(!is_condition("((((true)))"));
    assert!(!is_condition("(* of them"));
    let source = "rule a { condition: (* of them }";
    assert_eq!(errors(source)[0].1, "*");
}

/// A number of alternatives that all start in the same way.
#[test]
fn nested_parentheses() {
    let depth = 8;
    let condition = format!("{}1{}", "(".repeat(depth), ")".repeat(depth));
    assert!(is_condition(&condition));
    assert!(!is_condition(&format!("{}1{}", "(".repeat(depth), ")".repeat(depth - 1))));
}
