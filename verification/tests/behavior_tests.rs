use asari::ast::{Span, Spanned, Word};
use asari::builtin::{self, parse_i32, Request};
use asari::error::{HexError, ParseError, ParseErrorKind, UnicodeEscapeError};
use asari::exec::Shell;
use asari::parse::{parse_shell_command, parse_word};
use asari::render::quote_literal;

fn literal(text: &str, start: usize, end: usize) -> Spanned<Word> {
    Spanned {
        inner: Word::Literal(text.to_string()),
        span: Span { start, end },
    }
}

#[test]
fn adjacent_literals_concatenate() {
    let parsed = parse_shell_command("echo \"hello\"world").unwrap();
    assert_eq!(parsed.commands.len(), 1);
    let command = &parsed.commands[0].0;
    assert_eq!(command.name, literal("echo", 0, 4));
    assert_eq!(command.args, vec![literal("helloworld", 5, 17)]);
    assert_eq!(parsed.comment, None);

    let parsed = parse_shell_command("echo 'a'\"b\"c").unwrap();
    assert_eq!(parsed.commands[0].0.args, vec![literal("abc", 5, 12)]);
}

#[test]
fn quoted_line_scenarios() {
    // a plain single-quoted name covering the whole line
    let parsed = parse_shell_command("'plain text!'").unwrap();
    assert_eq!(parsed.commands.len(), 1);
    assert_eq!(parsed.commands[0].0.name, literal("plain text!", 0, 13));
    assert_eq!(parsed.commands[0].0.args, vec![]);
    assert_eq!(parsed.comment, None);

    // the double-quoted form of the same text
    let parsed = parse_shell_command("\"plain text!\"").unwrap();
    assert_eq!(parsed.commands[0].0.name, literal("plain text!", 0, 13));
}

#[test]
fn raw_line_scenarios() {
    // delimiter-counted raw form, content taken verbatim
    let parsed = parse_shell_command("r##\"x\"#y\"##").unwrap();
    assert_eq!(parsed.commands[0].0.name, literal("x\"#y", 0, 11));

    // an unterminated raw literal is fatal once the delimiter is counted
    assert_eq!(
        parse_shell_command("echo r\"abc").unwrap_err(),
        ParseError {
            kind: ParseErrorKind::Other,
            span: 7
        }
    );
}

#[test]
fn unicode_escape_error_cases() {
    assert_eq!(
        parse_word("\"\\uX\"").unwrap_err(),
        ParseError {
            kind: ParseErrorKind::InvalidUnicodeEscape(UnicodeEscapeError::NoBeginBrace),
            span: 3
        }
    );
    assert_eq!(
        parse_word("\"\\u{41\"").unwrap_err(),
        ParseError {
            kind: ParseErrorKind::InvalidUnicodeEscape(UnicodeEscapeError::NoEndBrace),
            span: 4
        }
    );
    assert_eq!(
        parse_word("\"\\u{FFFFFFFFF}\"").unwrap_err().kind,
        ParseErrorKind::ParseHexError(HexError::Overflow)
    );
    assert_eq!(parse_word("\"\\u{10FFFF}\""), Ok(literal("\u{10FFFF}", 0, 12)));
    assert_eq!(
        parse_word("\"\\u{D800}\"").unwrap_err().kind,
        ParseErrorKind::InvalidUnicodeEscape(UnicodeEscapeError::InvalidUnicode)
    );
}

#[test]
fn unterminated_quotes() {
    assert_eq!(
        parse_word("'abc").unwrap_err(),
        ParseError {
            kind: ParseErrorKind::NoEndQuotation,
            span: 4
        }
    );
    assert_eq!(
        parse_word("\"abc").unwrap_err(),
        ParseError {
            kind: ParseErrorKind::NoEndDoubleQuotation,
            span: 4
        }
    );
    assert_eq!(
        parse_shell_command("echo 'a").unwrap_err(),
        ParseError {
            kind: ParseErrorKind::NoEndQuotation,
            span: 7
        }
    );
}

#[test]
fn leftover_input_is_reported() {
    assert_eq!(
        parse_shell_command("echo |x").unwrap_err(),
        ParseError {
            kind: ParseErrorKind::Other,
            span: 5
        }
    );
    assert_eq!(
        parse_shell_command("echo(x)").unwrap_err(),
        ParseError {
            kind: ParseErrorKind::Other,
            span: 4
        }
    );
}

#[test]
fn requote_round_trip_scenarios() {
    let samples = [
        "",
        "hello",
        "it's a \"test\"",
        "tabs\tand\nlines\r",
        "back\\slash and \0 nul",
        "日本語 テキスト",
    ];
    for text in samples {
        let rendered = quote_literal(text);
        let parsed = parse_word(&rendered).unwrap();
        assert_eq!(parsed.inner, Word::Literal(text.to_string()));
        assert_eq!(parsed.span.start, 0);
        assert_eq!(parsed.span.end, rendered.len());
    }
    // the rendering escapes, so it never hands its argument back unchanged
    assert_eq!(quote_literal("a\nb"), "'a\\nb'");
    assert_eq!(quote_literal("it's"), "'it\\'s'");
}

#[test]
fn error_display_renders_caret() {
    let err = parse_shell_command("echo 'a").unwrap_err();
    assert_eq!(
        err.display("echo 'a"),
        "echo 'a\n       ^ クォーテーションを閉じてください\n"
    );
    let other = ParseError {
        kind: ParseErrorKind::Other,
        span: 0,
    };
    assert_eq!(other.display("a\nb"), "a b\n^ 不明なエラーです\n");
    let esc = ParseError {
        kind: ParseErrorKind::UnrecognizedEscape('x'),
        span: 2,
    };
    assert_eq!(esc.display("\"\\x\""), "\"\\x\"\n  ^ 不明なエスケープ \\x です\n");
}

#[test]
fn parse_i32_cases() {
    assert_eq!(parse_i32("0"), Some(0));
    assert_eq!(parse_i32("42"), Some(42));
    assert_eq!(parse_i32("007"), Some(7));
    assert_eq!(parse_i32("+7"), Some(7));
    assert_eq!(parse_i32("-3"), Some(-3));
    assert_eq!(parse_i32("2147483647"), Some(2147483647));
    assert_eq!(parse_i32("-2147483648"), Some(-2147483648));
    assert_eq!(parse_i32("2147483648"), None);
    assert_eq!(parse_i32("-2147483649"), None);
    assert_eq!(parse_i32("99999999999999999999"), None);
    assert_eq!(parse_i32(""), None);
    assert_eq!(parse_i32("+"), None);
    assert_eq!(parse_i32("-"), None);
    assert_eq!(parse_i32("--1"), None);
    assert_eq!(parse_i32("1a"), None);
    assert_eq!(parse_i32(" 1"), None);
}

#[test]
fn builtin_dispatch() {
    let none: Vec<String> = vec![];
    let one = |s: &str| vec![s.to_string()];
    let two = |a: &str, b: &str| vec![a.to_string(), b.to_string()];

    assert_eq!(
        builtin::run("cd", &none),
        Ok(Request::ChangeDir(None))
    );
    assert_eq!(
        builtin::run("cd", &one("/tmp")),
        Ok(Request::ChangeDir(Some("/tmp".to_string())))
    );
    assert_eq!(
        builtin::run("cd", &two("a", "b")),
        Err(builtin::Error::InvalidArgs)
    );

    assert_eq!(builtin::run("exit", &none), Err(builtin::Error::Exit(0)));
    assert_eq!(
        builtin::run("exit", &one("5")),
        Err(builtin::Error::Exit(5))
    );
    assert_eq!(
        builtin::run("exit", &one("-2")),
        Err(builtin::Error::Exit(-2))
    );
    assert_eq!(
        builtin::run("exit", &one("abc")),
        Err(builtin::Error::InvalidArgs)
    );
    assert_eq!(
        builtin::run("exit", &two("1", "2")),
        Err(builtin::Error::InvalidArgs)
    );

    assert_eq!(
        builtin::run("mkdir", &none),
        Err(builtin::Error::InvalidArgs)
    );
    assert_eq!(
        builtin::run("mkdir", &two("a", "b")),
        Ok(Request::MakeDirs(vec!["a".to_string(), "b".to_string()]))
    );

    assert_eq!(
        builtin::run("echo", &none),
        Err(builtin::Error::CommandNotFound)
    );
    assert_eq!(
        builtin::exit(&one("+9")),
        Err(builtin::Error::Exit(9))
    );
}

#[test]
fn shell_state_starts_fresh() {
    let shell = Shell::new();
    let copy = shell.clone();
    assert_eq!(format!("{:?}", shell), format!("{:?}", copy));
}

#[test]
fn whitespace_only_lines() {
    for input in ["", " ", "\u{3000}", " \t \u{3000} "] {
        let parsed = parse_shell_command(input).unwrap();
        assert_eq!(parsed.commands, vec![]);
        assert_eq!(parsed.comment, None);
    }
}
