use inline_gdscript::Delimiter;
use inline_gdscript::EmbedError;
use inline_gdscript::EmbedGdscript;
use inline_gdscript::Position;
use inline_gdscript::Spacing;
use inline_gdscript::Span;
use inline_gdscript::Token;
use inline_gdscript::gdscript_impl;

fn span_at(l1: usize, c1: usize, l2: usize, c2: usize) -> Span {
    Span {
        start: Position { line: l1, column: c1 },
        end: Position { line: l2, column: c2 },
    }
}

fn ident(text: &str, line: usize, col: usize) -> Token {
    let w = text.chars().count();
    Token::Ident {
        text: String::from(text),
        span: span_at(line, col, line, col + w),
    }
}

fn lit(text: &str, line: usize, col: usize) -> Token {
    let w = text.chars().count();
    Token::Literal {
        text: String::from(text),
        span: span_at(line, col, line, col + w),
    }
}

fn punct(ch: char, spacing: Spacing, line: usize, col: usize) -> Token {
    Token::Punct {
        ch,
        spacing,
        span: span_at(line, col, line, col + 1),
    }
}

fn group(delimiter: Delimiter, tokens: Vec<Token>, span: Span) -> Token {
    Token::Group {
        delimiter,
        tokens,
        span,
    }
}

#[test]
fn empty_stream_gives_empty_unit() {
    let unit = gdscript_impl(&vec![]).unwrap();
    assert_eq!(unit.gdscript, "");
    assert_eq!(unit.extra_source, "");
    assert_eq!(unit.first_indent, 0);
    assert!(unit.variables.entries.is_empty());
}

#[test]
fn two_statements_with_blank_line() {
    // print("hello", "world")   on line 2, column 4
    // <blank line 3>
    // print(c)                  on line 4, column 4
    let tokens = vec![
        ident("print", 2, 4),
        group(
            Delimiter::Parenthesis,
            vec![
                lit("\"hello\"", 2, 10),
                punct(',', Spacing::Alone, 2, 17),
                lit("\"world\"", 2, 19),
            ],
            span_at(2, 9, 2, 27),
        ),
        ident("print", 4, 4),
        group(
            Delimiter::Parenthesis,
            vec![ident("c", 4, 10)],
            span_at(4, 9, 4, 12),
        ),
    ];
    let unit = gdscript_impl(&tokens).unwrap();
    assert_eq!(unit.gdscript, "\nprint(\"hello\", \"world\")\n\nprint(c)");
    assert_eq!(unit.first_indent, 4);
    assert_eq!(unit.extra_source, "");
}

#[test]
fn indentation_delta_is_relative_to_baseline() {
    // first content line at column 4, a later line at column 7:
    // the later line is indented exactly 3 spaces
    let tokens = vec![ident("a", 2, 4), ident("b", 3, 7)];
    let unit = gdscript_impl(&tokens).unwrap();
    assert_eq!(unit.gdscript, "\na\n   b");
    assert_eq!(unit.first_indent, 4);
}

#[test]
fn negative_indentation_fails() {
    let tokens = vec![ident("a", 2, 4), ident("b", 3, 2)];
    let err = gdscript_impl(&tokens).unwrap_err();
    assert_eq!(err, EmbedError::Indentation(span_at(3, 2, 3, 3)));
}

#[test]
fn nested_group_with_splice_round_trips() {
    // ( a 'x b )  all on one line, single spaces around 'x
    let tokens = vec![group(
        Delimiter::Parenthesis,
        vec![
            ident("a", 1, 2),
            punct('\'', Spacing::Joint, 1, 4),
            ident("x", 1, 5),
            ident("b", 1, 7),
        ],
        span_at(1, 0, 1, 10),
    )];
    let unit = gdscript_impl(&tokens).unwrap();
    assert_eq!(unit.gdscript, "( a _RUST_x b )");
    assert_eq!(unit.variables.entries.len(), 1);
    assert_eq!(unit.variables.entries[0].mangled, "_RUST_x");
    assert_eq!(unit.variables.entries[0].ident, "x");
}

#[test]
fn capture_collapses_to_one_entry() {
    // print('x + 'x) : the same identifier spliced twice
    let tokens = vec![
        ident("print", 2, 4),
        group(
            Delimiter::Parenthesis,
            vec![
                punct('\'', Spacing::Joint, 2, 10),
                ident("x", 2, 11),
                punct('+', Spacing::Alone, 2, 13),
                punct('\'', Spacing::Joint, 2, 15),
                ident("x", 2, 16),
            ],
            span_at(2, 9, 2, 18),
        ),
    ];
    let unit = gdscript_impl(&tokens).unwrap();
    assert_eq!(unit.gdscript, "\nprint(_RUST_x + _RUST_x)");
    assert_eq!(unit.variables.entries.len(), 1);
    assert_eq!(unit.extra_source, "var _RUST_x\n");
}

#[test]
fn registry_order_ignores_first_use_order() {
    let forward = vec![
        punct('\'', Spacing::Joint, 2, 4),
        ident("x", 2, 5),
        punct('\'', Spacing::Joint, 2, 7),
        ident("y", 2, 8),
    ];
    let backward = vec![
        punct('\'', Spacing::Joint, 2, 4),
        ident("y", 2, 5),
        punct('\'', Spacing::Joint, 2, 7),
        ident("x", 2, 8),
    ];
    let a = gdscript_impl(&forward).unwrap();
    let b = gdscript_impl(&backward).unwrap();
    assert_eq!(a.variables.entries.len(), 2);
    assert_eq!(b.variables.entries.len(), 2);
    assert_eq!(a.variables.entries[0].mangled, b.variables.entries[0].mangled);
    assert_eq!(a.variables.entries[1].mangled, b.variables.entries[1].mangled);
    assert_eq!(a.variables.entries[0].mangled, "_RUST_x");
    assert_eq!(a.variables.entries[1].mangled, "_RUST_y");
    assert_eq!(a.extra_source, "var _RUST_x\nvar _RUST_y\n");
    assert_eq!(b.extra_source, "var _RUST_x\nvar _RUST_y\n");
}

#[test]
fn splice_emits_mangled_name_and_registers() {
    let tokens = vec![
        punct('\'', Spacing::Joint, 2, 4),
        ident("x", 2, 5),
    ];
    let unit = gdscript_impl(&tokens).unwrap();
    assert_eq!(unit.gdscript, "\n_RUST_x");
    assert_eq!(unit.variables.entries.len(), 1);
    assert_eq!(unit.variables.entries[0].mangled, "_RUST_x");
    assert_eq!(unit.variables.entries[0].ident, "x");
    assert_eq!(unit.extra_source, "var _RUST_x\n");
}

#[test]
fn splice_keeps_following_layout() {
    // 'x followed by more text on the same line keeps its spacing
    let tokens = vec![
        punct('\'', Spacing::Joint, 2, 4),
        ident("x", 2, 5),
        ident("after", 2, 8),
    ];
    let unit = gdscript_impl(&tokens).unwrap();
    assert_eq!(unit.gdscript, "\n_RUST_x  after");
}

#[test]
fn marker_not_followed_by_identifier_fails() {
    let tokens = vec![
        punct('\'', Spacing::Joint, 2, 4),
        punct('+', Spacing::Alone, 2, 5),
    ];
    let err = gdscript_impl(&tokens).unwrap_err();
    assert_eq!(err, EmbedError::MalformedSplice(span_at(2, 4, 2, 5)));
}

#[test]
fn marker_at_end_of_stream_fails() {
    let tokens = vec![punct('\'', Spacing::Joint, 2, 4)];
    let err = gdscript_impl(&tokens).unwrap_err();
    assert_eq!(err, EmbedError::MalformedSplice(span_at(2, 4, 2, 5)));
}

#[test]
fn alone_marker_is_emitted_verbatim() {
    let tokens = vec![
        punct('\'', Spacing::Alone, 2, 4),
        ident("x", 2, 6),
    ];
    let unit = gdscript_impl(&tokens).unwrap();
    assert_eq!(unit.gdscript, "\n' x");
    assert!(unit.variables.entries.is_empty());
}

#[test]
fn compile_time_mode_disables_splicing() {
    let mut x = EmbedGdscript::new();
    x.compile_time = true;
    let tokens = vec![
        punct('\'', Spacing::Joint, 2, 4),
        ident("x", 2, 5),
    ];
    x.add(&tokens).unwrap();
    assert_eq!(x.gdscript, "\n'x");
    assert!(x.variables.entries.is_empty());
}

#[test]
fn brace_and_bracket_groups_use_their_delimiters() {
    let tokens = vec![
        group(
            Delimiter::Brace,
            vec![ident("a", 2, 5)],
            span_at(2, 4, 2, 7),
        ),
        group(
            Delimiter::Bracket,
            vec![ident("b", 2, 9)],
            span_at(2, 8, 2, 11),
        ),
    ];
    let unit = gdscript_impl(&tokens).unwrap();
    assert_eq!(unit.gdscript, "\n{a} [b]");
}

#[test]
fn invisible_group_emits_no_delimiters() {
    let tokens = vec![group(
        Delimiter::Invisible,
        vec![ident("ab", 2, 4)],
        span_at(2, 4, 2, 6),
    )];
    let unit = gdscript_impl(&tokens).unwrap();
    assert_eq!(unit.gdscript, "\nab");
}

#[test]
fn multi_line_literal_moves_cursor_to_its_end() {
    let tokens = vec![
        lit("\"a\nb\"", 2, 4),
        ident("c", 3, 4),
    ];
    // the literal's span ends at line 3, column 2
    let tokens = {
        let mut t = tokens;
        if let Token::Literal { span, .. } = &mut t[0] {
            span.end = Position { line: 3, column: 2 };
        }
        t
    };
    let unit = gdscript_impl(&tokens).unwrap();
    assert_eq!(unit.gdscript, "\n\"a\nb\"  c");
}

#[test]
fn mangle_name_prepends_prefix() {
    assert_eq!(EmbedGdscript::mangle_name(&String::from("foo")), "_RUST_foo");
    assert_eq!(EmbedGdscript::mangle_name(&String::from("")), "_RUST_");
}

#[test]
fn cursor_overflow_fails() {
    // an identifier whose span ends at the last representable column,
    // followed by punctuation on the same line: advancing the cursor by
    // one more column has nowhere to go
    let tokens = vec![
        Token::Ident {
            text: String::from("a"),
            span: Span {
                start: Position { line: 2, column: 4 },
                end: Position {
                    line: 2,
                    column: usize::MAX,
                },
            },
        },
        punct('+', Spacing::Alone, 2, 6),
    ];
    let err = match gdscript_impl(&tokens) {
        Err(e) => e,
        Ok(_) => panic!("expected a cursor overflow"),
    };
    assert_eq!(err, EmbedError::CursorOverflow(span_at(2, 6, 2, 7)));
}
