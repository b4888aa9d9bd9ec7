use echo::error::{Error, Expected, LexProblem};
use echo::token::TokenKind;
use echo::{parse, Dest, Instruction, Source};

fn parse_ok(input: &str) -> Vec<Instruction> {
    parse(input, "//").unwrap().take_instructions()
}

fn load(path: &str, key: &str) -> Instruction {
    Instruction::Load(path.to_string(), key.to_string())
}

fn goto_marker(name: &str) -> Instruction {
    Instruction::Goto(Dest::Marker(name.to_string()))
}

fn goto_rel(row: i32, col: i32) -> Instruction {
    Instruction::Goto(Dest::Relative { row, col })
}

fn print_str(s: &str) -> Instruction {
    Instruction::Type {
        source: Source::Str(s.to_string()),
        trim_trailing_newline: false,
        prefix_newline: false,
    }
}

fn print_ident(s: &str) -> Instruction {
    Instruction::Type {
        source: Source::Ident(s.to_string()),
        trim_trailing_newline: false,
        prefix_newline: false,
    }
}

fn replace_str(src: &str, s: &str) -> Instruction {
    Instruction::Replace { src: src.to_string(), replacement: Source::Str(s.to_string()) }
}

fn replace_ident(src: &str, s: &str) -> Instruction {
    Instruction::Replace { src: src.to_string(), replacement: Source::Ident(s.to_string()) }
}

#[test]
fn parse_load() {
    let output = parse_ok("load \"foo.rs\" as hoppy");
    let expected = vec![load("foo.rs", "hoppy")];
    assert_eq!(output, expected);
}

#[test]
fn parse_goto() {
    let output = parse_ok("goto aaa");
    let expected = vec![goto_marker("aaa")];
    assert_eq!(output, expected);

    let output = parse_ok("goto 1, 2");
    let expected = vec![goto_rel(1, 2)];
    assert_eq!(output, expected);
}

#[test]
fn parse_type() {
    let output = parse_ok("type \"a string\"");
    let expected = vec![print_str("a string")];
    assert_eq!(output, expected);

    let output = parse_ok("type aaa");
    let expected = vec![print_ident("aaa")];
    assert_eq!(output, expected);
}

#[test]
fn parse_replace() {
    let output = parse_ok("replace \"a\" \"b\"");
    let expected = vec![replace_str("a", "b")];
    assert_eq!(output, expected);

    let output = parse_ok("replace \"a\" b");
    let expected = vec![replace_ident("a", "b")];
    assert_eq!(output, expected);
}

#[test]
fn parse_wait() {
    let output = parse_ok("wait 123");
    let expected = vec![Instruction::Wait(123)];
    assert_eq!(output, expected);
}

#[test]
fn parse_goto_negatives() {
    let output = parse_ok("goto -1 -2");
    let expected = vec![goto_rel(-1, -2)];
    assert_eq!(output, expected);
}

#[test]
fn multi_lines() {
    let output = parse_ok(
        "

        //
goto 1     2
        //
            wait 1
            // waffles
            wait 2
            // waffles
            ",
    );
    let expected = vec![goto_rel(1, 2), Instruction::Wait(1), Instruction::Wait(2)];
    assert_eq!(output, expected);
}

#[test]
fn parse_every_instruction() {
    let output = parse_ok(
        "load \"a.txt\" as text\ngoto m\ntype text nonl\ntypenl \"x\"\ninsert \"y\"\nreplace \"a\" b\ndelete\nspeed 5\nselect 3 4\nfind \"needle\"\nlinepause 100\nwait 2",
    );
    let expected = vec![
        load("a.txt", "text"),
        goto_marker("m"),
        Instruction::Type {
            source: Source::Ident("text".to_string()),
            trim_trailing_newline: true,
            prefix_newline: false,
        },
        Instruction::Type {
            source: Source::Str("x".to_string()),
            trim_trailing_newline: false,
            prefix_newline: true,
        },
        Instruction::Insert(Source::Str("y".to_string())),
        replace_ident("a", "b"),
        Instruction::Delete,
        Instruction::Speed(5),
        Instruction::Select { width: 3, height: 4 },
        Instruction::Find("needle".to_string()),
        Instruction::LinePause(100),
        Instruction::Wait(2),
    ];
    assert_eq!(output, expected);
}

#[test]
fn empty_and_comment_only_sources() {
    assert_eq!(parse_ok(""), vec![]);
    assert_eq!(parse_ok("   \n// nothing here\n\n  // indented\n"), vec![]);
}

#[test]
fn trailing_comment_ends_a_line() {
    assert_eq!(parse_ok("wait 1 // pause\nwait 2"), vec![Instruction::Wait(1), Instruction::Wait(2)]);
}

#[test]
fn other_comment_prefix() {
    let output = parse("# a comment\nwait 3\n# done", "#").unwrap().take_instructions();
    assert_eq!(output, vec![Instruction::Wait(3)]);
}

#[test]
fn extra_token_is_unexpected() {
    match parse("wait 1 2", "//") {
        Err(Error::UnexpectedToken { expected, token }) => {
            assert_eq!(expected, Expected::NewlineOrEof);
            assert_eq!(token.kind, TokenKind::Int(2));
            assert_eq!(token.span.start, 7);
            assert_eq!(token.span.end, 8);
        }
        other => panic!("unexpected result {:?}", other),
    }
    assert!(matches!(parse("delete delete", "//"), Err(Error::UnexpectedToken { .. })));
}

#[test]
fn bad_operand_is_invalid_argument() {
    match parse("load foo as bar", "//") {
        Err(Error::InvalidArgument { expected, token }) => {
            assert_eq!(expected, Expected::Str);
            assert_eq!(token.kind, TokenKind::Ident("foo".to_string()));
        }
        other => panic!("unexpected result {:?}", other),
    }
    match parse("load \"f\" to bar", "//") {
        Err(Error::InvalidArgument { expected, .. }) => assert_eq!(expected, Expected::As),
        other => panic!("unexpected result {:?}", other),
    }
    match parse("goto 1 x", "//") {
        Err(Error::InvalidArgument { expected, .. }) => assert_eq!(expected, Expected::Number),
        other => panic!("unexpected result {:?}", other),
    }
    match parse("replace a b", "//") {
        Err(Error::InvalidArgument { expected, .. }) => assert_eq!(expected, Expected::Str),
        other => panic!("unexpected result {:?}", other),
    }
    match parse("wait x", "//") {
        Err(Error::InvalidArgument { expected, .. }) => assert_eq!(expected, Expected::Seconds),
        other => panic!("unexpected result {:?}", other),
    }
    match parse("speed -1", "//") {
        Err(Error::InvalidArgument { expected, .. }) => assert_eq!(expected, Expected::Int),
        other => panic!("unexpected result {:?}", other),
    }
    match parse("select 70000 1", "//") {
        Err(Error::InvalidArgument { expected, .. }) => assert_eq!(expected, Expected::IdentOrRow),
        other => panic!("unexpected result {:?}", other),
    }
    match parse("goto 1 3000000000", "//") {
        Err(Error::InvalidArgument { expected, .. }) => assert_eq!(expected, Expected::Number),
        other => panic!("unexpected result {:?}", other),
    }
}

#[test]
fn unknown_keyword_is_invalid_instruction() {
    match parse("jump 3", "//") {
        Err(Error::InvalidInstruction { token }) => {
            assert_eq!(token.kind, TokenKind::Ident("jump".to_string()));
            assert_eq!(token.span.start, 0);
            assert_eq!(token.span.end, 4);
        }
        other => panic!("unexpected result {:?}", other),
    }
}

#[test]
fn lexical_errors() {
    match parse("type \"open", "//") {
        Err(Error::Lex { problem, span }) => {
            assert_eq!(problem, LexProblem::UnterminatedString);
            assert_eq!(span.start, 5);
            assert_eq!(span.end, 10);
        }
        other => panic!("unexpected result {:?}", other),
    }
    match parse("wait 99999999999999999999", "//") {
        Err(Error::Lex { problem, .. }) => assert_eq!(problem, LexProblem::IntegerOutOfRange),
        other => panic!("unexpected result {:?}", other),
    }
}

#[test]
fn integer_edges() {
    assert_eq!(parse_ok("speed 18446744073709551615"), vec![Instruction::Speed(u64::MAX)]);
    assert_eq!(parse_ok("linepause 18446744073709551615"), vec![Instruction::LinePause(u64::MAX)]);
    assert_eq!(parse_ok("wait 18446744073709551615"), vec![Instruction::Wait(u64::MAX)]);
    match parse("speed 18446744073709551616", "//") {
        Err(Error::Lex { problem, .. }) => assert_eq!(problem, LexProblem::IntegerOutOfRange),
        other => panic!("unexpected result {:?}", other),
    }
    match parse("goto -18446744073709551615 0", "//") {
        Err(Error::InvalidArgument { expected, token }) => {
            assert_eq!(expected, Expected::Number);
            assert_eq!(token.kind, TokenKind::Int(-18446744073709551615));
        }
        other => panic!("unexpected result {:?}", other),
    }
    match parse("wait 12ab", "//") {
        Err(Error::InvalidArgument { token, .. }) => {
            assert_eq!(token.kind, TokenKind::Ident("12ab".to_string()))
        }
        other => panic!("unexpected result {:?}", other),
    }
    assert_eq!(parse_ok("goto -"), vec![goto_marker("-")]);
}

#[test]
fn strings_keep_their_text() {
    let output = parse_ok("type \"héllo, wait // not a comment\"");
    assert_eq!(output, vec![print_str("héllo, wait // not a comment")]);
}

#[test]
fn wait_largest_value() {
    assert_eq!(parse_ok("wait 9223372036854775807"), vec![Instruction::Wait(9223372036854775807)]);
    assert_eq!(parse_ok("goto -2147483648 2147483647"), vec![goto_rel(i32::MIN, i32::MAX)]);
}

#[test]
fn canonical_lines_parse_back() {
    let cases = vec![
        ("load \"notes.txt\" as notes", load("notes.txt", "notes")),
        ("goto top", goto_marker("top")),
        ("goto -3 7", goto_rel(-3, 7)),
        (
            "typenl notes nonl",
            Instruction::Type {
                source: Source::Ident("notes".to_string()),
                trim_trailing_newline: true,
                prefix_newline: true,
            },
        ),
        ("insert \"x y\"", Instruction::Insert(Source::Str("x y".to_string()))),
        ("replace \"old\" \"new\"", replace_str("old", "new")),
        ("delete", Instruction::Delete),
        ("speed 0", Instruction::Speed(0)),
        ("select 65535 0", Instruction::Select { width: 65535, height: 0 }),
        ("find \"fn main\"", Instruction::Find("fn main".to_string())),
        ("linepause 250", Instruction::LinePause(250)),
        ("wait 0", Instruction::Wait(0)),
    ];
    for (line, expected) in cases {
        assert_eq!(parse_ok(line), vec![expected], "line {:?}", line);
    }
}

#[test]
fn single_slash_starts_an_identifier() {
    assert_eq!(parse_ok("goto /top"), vec![goto_marker("/top")]);
    assert_eq!(parse_ok("goto top //note"), vec![goto_marker("top")]);
}

#[test]
fn labels_name_each_category() {
    assert_eq!(Expected::Str.label(), "string");
    assert_eq!(Expected::StrOrIdent.label(), "string or ident");
    assert_eq!(Expected::NewlineOrEof.label(), "newline or end of file");
}

#[test]
fn extra_word_after_a_line_is_unexpected() {
    for (line, kind) in vec![
        ("goto top \"x\"", TokenKind::Str("x".to_string())),
        ("load \"a\" as b load", TokenKind::Load),
        ("type a nonl nonl", TokenKind::NoNewline),
        ("select 1 2 3", TokenKind::Int(3)),
    ] {
        match parse(line, "//") {
            Err(Error::UnexpectedToken { expected, token }) => {
                assert_eq!(expected, Expected::NewlineOrEof);
                assert_eq!(token.kind, kind);
            }
            other => panic!("unexpected result {:?} for {:?}", other, line),
        }
    }
}
