# yara_syntax

A parser for [YARA](https://virustotal.github.io/yara/) rules, and the arithmetic
of YARA's `math` module, verified with [Verus](https://github.com/verus-lang/verus).

```rust
use yara_syntax::parser::Parser;

let source = b"import \"math\" rule test { condition: math.abs(-1) == 1 }";

// The syntax tree as a sequence of events.
for event in Parser::new(source).whitespaces(false).events().into_vec() {
    println!("{:?}", event);
}

// The syntax tree as a tree, with the errors that were found.
let cst = Parser::new(source).build_cst();
assert!(cst.errors().is_empty());
```

## What is proved

The parser is a parsing expression grammar written by hand. `src/grammar.rs` says
what YARA is made of, `src/semantics.rs` what it means to parse an expression of
the grammar, and each function of `src/parser/` is proved to do exactly that. From
this follow the laws in `src/laws/`, all of which hold of every source, whatever
its bytes are:

- Parsing ends, and it has one result only.
- The tree is lossless: its tokens are the source, from the first byte to the
  last one, and its nodes are nested. One node, the first to start and the last
  to end, is around everything else.
- What is outside of error nodes is, trivia aside, a sequence of import statements
  and rule declarations as the grammar describes them. Within a rule for which an
  error is reported, what stands before a point of recovery may have been cut
  short. An item for which no error is reported is complete. So a tree without
  errors and without error nodes is that of a source which the grammar describes,
  from the first token to the last one.
- Errors are about places in the source.
- The cache of failures, which conditions are parsed with, changes nothing but the
  time that parsing takes. What failed at a token is not tried there again.

The hash tables of `rustc_hash` and `indexmap`, `itertools::join` and
`String::from_utf8_lossy` are not verified. `src/collections.rs` and
`src/message.rs` state what they are taken to do.

## Layout

- `src/` is the verified library.
- `tests/` are its tests.
- `app/` holds the functions of the `math` module that return floating-point
  numbers. They take what they need from the library as integers.
