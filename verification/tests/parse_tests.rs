use asari::ast::{Command, ShellCommand, Span, Spanned, SpecialVar, Word};
use asari::error::{HexError, ParseError, ParseErrorKind, UnicodeEscapeError};
use asari::parse::{parse_shell_command, parse_word, parse_word_prefix};

fn literal(text: &str, start: usize, end: usize) -> Spanned<Word> {
    Spanned {
        inner: Word::Literal(text.to_string()),
        span: Span { start, end },
    }
}

fn path_literal(text: &str, start: usize, end: usize) -> Spanned<Word> {
    Spanned {
        inner: Word::PathLiteral(text.to_string()),
        span: Span { start, end },
    }
}

fn env_var(name: &str, start: usize, end: usize) -> Spanned<Word> {
    Spanned {
        inner: Word::EnvVar(name.to_string()),
        span: Span { start, end },
    }
}

fn shell_var(name: &str, start: usize, end: usize) -> Spanned<Word> {
    Spanned {
        inner: Word::ShellVar(name.to_string()),
        span: Span { start, end },
    }
}

fn special_var(var: SpecialVar, start: usize, end: usize) -> Spanned<Word> {
    Spanned {
        inner: Word::SpecialVar(var),
        span: Span { start, end },
    }
}

fn shell(
    command: (&str, usize, usize),
    args: &[(&str, usize, usize)],
    comment: Option<&str>,
) -> ShellCommand {
    ShellCommand {
        commands: vec![(
            Command {
                name: literal(command.0, command.1, command.2),
                args: args.iter().map(|a| literal(a.0, a.1, a.2)).collect(),
            },
            None,
        )],
        comment: comment.map(str::to_string),
    }
}

fn parse_error(kind: ParseErrorKind, span: usize) -> ParseError {
    ParseError { kind, span }
}

fn word_peek(input: &str) -> Result<(&str, Spanned<Word>), ParseError> {
    parse_word_prefix(input).map(|(word, used)| (&input[used..], word))
}

#[test]
fn double_quoted_string_test() {
    assert_eq!(parse_word("\"hello\""), Ok(literal("hello", 0, 7)));
    assert_eq!(
        parse_word("\"hello world\""),
        Ok(literal("hello world", 0, 13))
    );
    assert_eq!(parse_word("\"\""), Ok(literal("", 0, 2)));
    assert_eq!(
        parse_word("\"hello\\nworld\""),
        Ok(literal("hello\nworld", 0, 14))
    );
    assert_eq!(
        parse_word("\"hello\\tworld\""),
        Ok(literal("hello\tworld", 0, 14))
    );
    assert_eq!(
        parse_word("\"hello\\rworld\""),
        Ok(literal("hello\rworld", 0, 14))
    );
    assert_eq!(
        parse_word("\"hello\\0world\""),
        Ok(literal("hello\0world", 0, 14))
    );
    assert_eq!(
        parse_word("\"hello\\\\world\""),
        Ok(literal("hello\\world", 0, 14))
    );
    assert_eq!(
        parse_word("\"say \\\"hi\\\"\""),
        Ok(literal("say \"hi\"", 0, 12))
    );
    assert_eq!(parse_word("\"it\\'s\""), Ok(literal("it's", 0, 7)));
    assert_eq!(parse_word("\"\\u{41}\""), Ok(literal("\u{41}", 0, 8)));
    assert_eq!(parse_word("\"\\u{3042}\""), Ok(literal("\u{3042}", 0, 10)));
    assert_eq!(parse_word("\"\\u{1F600}\""), Ok(literal("\u{1F600}", 0, 11)));
    assert_eq!(
        parse_word("\"line1\\nline2\\nline3\""),
        Ok(literal("line1\nline2\nline3", 0, 21))
    );

    assert_eq!(
        parse_word("\"\\x\"").unwrap_err(),
        parse_error(ParseErrorKind::UnrecognizedEscape('x'), 2)
    );
    assert_eq!(
        parse_word("\"\\u{GGGG}\"").unwrap_err().kind,
        ParseErrorKind::ParseHexError(HexError::InvalidDigit)
    );
    assert_eq!(
        parse_word("\"\\u{110000}\"").unwrap_err(),
        parse_error(
            ParseErrorKind::InvalidUnicodeEscape(UnicodeEscapeError::InvalidUnicode),
            4
        )
    );
    assert_eq!(
        parse_word("\"\\u{}\"").unwrap_err().kind,
        ParseErrorKind::ParseHexError(HexError::Empty)
    );
    assert_eq!(
        parse_word("\"\\u{1234567}\"").unwrap_err(),
        parse_error(
            ParseErrorKind::InvalidUnicodeEscape(UnicodeEscapeError::InvalidUnicode),
            4
        )
    );
}

#[test]
fn quoted_string_test() {
    assert_eq!(parse_word("'hello'"), Ok(literal("hello", 0, 7)));
    assert_eq!(
        parse_word("'hello world'"),
        Ok(literal("hello world", 0, 13))
    );
    assert_eq!(parse_word("''"), Ok(literal("", 0, 2)));
    assert_eq!(
        parse_word("'hello\\nworld'"),
        Ok(literal("hello\nworld", 0, 14))
    );
    assert_eq!(
        parse_word("'hello\\tworld'"),
        Ok(literal("hello\tworld", 0, 14))
    );
    assert_eq!(
        parse_word("'hello\\rworld'"),
        Ok(literal("hello\rworld", 0, 14))
    );
    assert_eq!(
        parse_word("'hello\\0world'"),
        Ok(literal("hello\0world", 0, 14))
    );
    assert_eq!(
        parse_word("'hello\\\\world'"),
        Ok(literal("hello\\world", 0, 14))
    );
    assert_eq!(
        parse_word("'say \\\"hi\\\"'"),
        Ok(literal("say \"hi\"", 0, 12))
    );
    assert_eq!(parse_word("'it\\'s'"), Ok(literal("it's", 0, 7)));
    assert_eq!(parse_word("'\\u{41}'"), Ok(literal("\u{41}", 0, 8)));
    assert_eq!(parse_word("'\\u{3042}'"), Ok(literal("\u{3042}", 0, 10)));
    assert_eq!(parse_word("'\\u{1F600}'"), Ok(literal("\u{1F600}", 0, 11)));
    assert_eq!(
        parse_word("'line1\\nline2\\nline3'"),
        Ok(literal("line1\nline2\nline3", 0, 21))
    );
}

#[test]
fn raw_string_test() {
    assert_eq!(parse_word("r\"hello\""), Ok(literal("hello", 0, 8)));
    assert_eq!(
        parse_word("r\"hello world\""),
        Ok(literal("hello world", 0, 14))
    );
    assert_eq!(parse_word("r\"\""), Ok(literal("", 0, 3)));
    assert_eq!(
        parse_word("r\"hello\\nworld\""),
        Ok(literal("hello\\nworld", 0, 15))
    );
    assert_eq!(parse_word("r#\"hello\"#"), Ok(literal("hello", 0, 10)));
    assert_eq!(
        parse_word("r#\"say \"hello\"\"#"),
        Ok(literal("say \"hello\"", 0, 16))
    );
    assert_eq!(
        parse_word("r##\"contains \"#\"##"),
        Ok(literal("contains \"#", 0, 18))
    );
    assert_eq!(
        parse_word("r###\"a\"##b\"###"),
        Ok(literal("a\"##b", 0, 14))
    );
}

#[test]
fn path_string_test() {
    assert_eq!(parse_word("p\"hello\""), Ok(path_literal("hello", 0, 8)));
    assert_eq!(parse_word("p\"\""), Ok(path_literal("", 0, 3)));
    assert_eq!(
        parse_word("p\"~/Documents\""),
        Ok(path_literal("~/Documents", 0, 14))
    );
    assert_eq!(
        parse_word("p\"~user/files\""),
        Ok(path_literal("~user/files", 0, 14))
    );
    assert_eq!(
        parse_word("p\"hello\\nworld\""),
        Ok(path_literal("hello\\nworld", 0, 15))
    );
    assert_eq!(
        parse_word("p#\"C:\\Users\\*\"#"),
        Ok(path_literal("C:\\Users\\*", 0, 15))
    );
    assert_eq!(
        parse_word("p##\"path\"#here\"##"),
        Ok(path_literal("path\"#here", 0, 17))
    );
}

#[test]
fn unquoted_string_test() {
    assert_eq!(parse_word("hello"), Ok(literal("hello", 0, 5)));
    assert_eq!(parse_word("hello-world"), Ok(literal("hello-world", 0, 11)));
    assert_eq!(
        parse_word("/usr/bin/python"),
        Ok(literal("/usr/bin/python", 0, 15))
    );
    assert_eq!(parse_word("file.txt"), Ok(literal("file.txt", 0, 8)));
    assert_eq!(
        word_peek("hello world"),
        Ok((" world", literal("hello", 0, 5)))
    );
    assert_eq!(
        word_peek("hello\u{3000}world"),
        Ok(("\u{3000}world", literal("hello", 0, 5)))
    );
    assert_eq!(
        parse_word("hello#comment"),
        Ok(literal("hello#comment", 0, 13))
    );
    assert_eq!(parse_word("hello?world"), Ok(literal("hello?world", 0, 11)));
    assert_eq!(parse_word("hello!world"), Ok(literal("hello!world", 0, 11)));
    assert_eq!(parse_word("hello$world"), Ok(literal("hello$world", 0, 11)));
    assert_eq!(
        word_peek("hello|world"),
        Ok(("|world", literal("hello", 0, 5)))
    );
    assert_eq!(word_peek("hello>out"), Ok((">out", literal("hello", 0, 5))));
    assert_eq!(word_peek("hello<in"), Ok(("<in", literal("hello", 0, 5))));
    assert_eq!(
        word_peek("hello;next"),
        Ok((";next", literal("hello", 0, 5)))
    );
    assert_eq!(word_peek("hello&bg"), Ok(("&bg", literal("hello", 0, 5))));
    assert_eq!(
        word_peek("hello(expr)"),
        Ok(("(expr)", literal("hello", 0, 5)))
    );
    assert_eq!(
        word_peek("hello{group}"),
        Ok(("{group}", literal("hello", 0, 5)))
    );
    assert_eq!(parse_word("rm"), Ok(literal("rm", 0, 2)));
    assert_eq!(parse_word("python"), Ok(literal("python", 0, 6)));
    assert_eq!(parse_word("r"), Ok(literal("r", 0, 1)));
    assert_eq!(parse_word("p"), Ok(literal("p", 0, 1)));
    assert_eq!(parse_word("rust"), Ok(literal("rust", 0, 4)));
    assert_eq!(parse_word("path"), Ok(literal("path", 0, 4)));
}

#[test]
fn var_test() {
    assert_eq!(parse_word("$PATH"), Ok(env_var("PATH", 0, 5)));
    assert_eq!(parse_word("$path"), Ok(env_var("path", 0, 5)));
    assert_eq!(parse_word("$x"), Ok(env_var("x", 0, 2)));
    assert_eq!(parse_word("$X"), Ok(env_var("X", 0, 2)));
    assert_eq!(parse_word("$my_var"), Ok(env_var("my_var", 0, 7)));
    assert_eq!(parse_word("$myVar"), Ok(env_var("myVar", 0, 6)));
    assert_eq!(parse_word("$var123"), Ok(env_var("var123", 0, 7)));
    assert_eq!(parse_word("$_private"), Ok(env_var("_private", 0, 9)));
    assert_eq!(parse_word("$__double"), Ok(env_var("__double", 0, 9)));
    assert_eq!(parse_word("$_123"), Ok(env_var("_123", 0, 5)));
    assert_eq!(parse_word("$変数"), Ok(env_var("変数", 0, 7)));
    assert_eq!(parse_word("$カウンタ"), Ok(env_var("カウンタ", 0, 13)));
    assert_eq!(parse_word("$あいう"), Ok(env_var("あいう", 0, 10)));
    assert_eq!(parse_word("$café"), Ok(env_var("café", 0, 6)));
    assert_eq!(parse_word("%PATH"), Ok(shell_var("PATH", 0, 5)));
    assert_eq!(parse_word("%path"), Ok(shell_var("path", 0, 5)));
    assert_eq!(parse_word("%x"), Ok(shell_var("x", 0, 2)));
    assert_eq!(parse_word("%X"), Ok(shell_var("X", 0, 2)));
    assert_eq!(parse_word("%my_var"), Ok(shell_var("my_var", 0, 7)));
    assert_eq!(parse_word("%myVar"), Ok(shell_var("myVar", 0, 6)));
    assert_eq!(parse_word("%var123"), Ok(shell_var("var123", 0, 7)));
    assert_eq!(parse_word("%_private"), Ok(shell_var("_private", 0, 9)));
    assert_eq!(parse_word("%__double"), Ok(shell_var("__double", 0, 9)));
    assert_eq!(parse_word("%_123"), Ok(shell_var("_123", 0, 5)));
    assert_eq!(parse_word("%変数"), Ok(shell_var("変数", 0, 7)));
    assert_eq!(parse_word("%カウンタ"), Ok(shell_var("カウンタ", 0, 13)));
    assert_eq!(parse_word("%あいう"), Ok(shell_var("あいう", 0, 10)));
    assert_eq!(parse_word("%café"), Ok(shell_var("café", 0, 6)));

    assert_eq!(
        parse_word("$123").unwrap_err(),
        parse_error(ParseErrorKind::NoIdent, 1)
    );
    assert_eq!(
        parse_word("$2var").unwrap_err(),
        parse_error(ParseErrorKind::NoIdent, 1)
    );
    assert_eq!(
        parse_word("$_").unwrap_err(),
        parse_error(ParseErrorKind::InvalidIdent, 1)
    );
    assert_eq!(
        parse_word("$").unwrap_err(),
        parse_error(ParseErrorKind::NoIdent, 1)
    );
    assert_eq!(
        parse_word("$-var").unwrap_err(),
        parse_error(ParseErrorKind::NoIdent, 1)
    );
    assert_eq!(
        parse_word("%123").unwrap_err(),
        parse_error(ParseErrorKind::NoIdent, 1)
    );
    assert_eq!(
        parse_word("%2var").unwrap_err(),
        parse_error(ParseErrorKind::NoIdent, 1)
    );
    assert_eq!(
        parse_word("%_").unwrap_err(),
        parse_error(ParseErrorKind::InvalidIdent, 1)
    );
    assert_eq!(
        parse_word("%").unwrap_err(),
        parse_error(ParseErrorKind::NoIdent, 1)
    );
    assert_eq!(
        parse_word("%-var").unwrap_err(),
        parse_error(ParseErrorKind::NoIdent, 1)
    );

    assert_eq!(
        parse_word("$?"),
        Ok(special_var(SpecialVar::ExitStatus, 0, 2))
    );
    assert_eq!(parse_word("$$"), Ok(special_var(SpecialVar::Pid, 0, 2)));
    assert_eq!(
        parse_word("$!"),
        Ok(special_var(SpecialVar::BackgroundPid, 0, 2))
    );
    assert_eq!(
        parse_word("$@"),
        Ok(special_var(SpecialVar::ShellName, 0, 2))
    );
    assert_eq!(
        parse_word("$#").unwrap_err(),
        parse_error(ParseErrorKind::NoIdent, 1)
    );
    assert_eq!(
        parse_word("$*").unwrap_err(),
        parse_error(ParseErrorKind::NoIdent, 1)
    );
    assert_eq!(
        parse_word("$%").unwrap_err(),
        parse_error(ParseErrorKind::NoIdent, 1)
    );

    assert_eq!(word_peek("$PATH/bin"), Ok(("/bin", env_var("PATH", 0, 5))));
    assert_eq!(
        word_peek("$var-suffix"),
        Ok(("-suffix", env_var("var", 0, 4)))
    );
    assert_eq!(word_peek("$var.txt"), Ok((".txt", env_var("var", 0, 4))));
    assert_eq!(
        word_peek("$var:value"),
        Ok((":value", env_var("var", 0, 4)))
    );
    assert_eq!(
        word_peek("$var=value"),
        Ok(("=value", env_var("var", 0, 4)))
    );
    assert_eq!(word_peek("$a b"), Ok((" b", env_var("a", 0, 2))));
    assert_eq!(
        word_peek("$var#comment"),
        Ok(("#comment", env_var("var", 0, 4)))
    );
    assert_eq!(
        word_peek("$var$other"),
        Ok(("$other", env_var("var", 0, 4)))
    );
    assert_eq!(
        word_peek("$var%other"),
        Ok(("%other", env_var("var", 0, 4)))
    );
    assert_eq!(
        word_peek("%PATH/bin"),
        Ok(("/bin", shell_var("PATH", 0, 5)))
    );
    assert_eq!(
        word_peek("%var-suffix"),
        Ok(("-suffix", shell_var("var", 0, 4)))
    );
    assert_eq!(word_peek("%var.txt"), Ok((".txt", shell_var("var", 0, 4))));
    assert_eq!(
        word_peek("%var:value"),
        Ok((":value", shell_var("var", 0, 4)))
    );
    assert_eq!(
        word_peek("%var=value"),
        Ok(("=value", shell_var("var", 0, 4)))
    );
    assert_eq!(word_peek("%a b"), Ok((" b", shell_var("a", 0, 2))));
    assert_eq!(
        word_peek("%var#comment"),
        Ok(("#comment", shell_var("var", 0, 4)))
    );
    assert_eq!(
        word_peek("%var$other"),
        Ok(("$other", shell_var("var", 0, 4)))
    );
    assert_eq!(
        word_peek("%var%other"),
        Ok(("%other", shell_var("var", 0, 4)))
    );

    assert_eq!(
        word_peek("$?var"),
        Ok(("var", special_var(SpecialVar::ExitStatus, 0, 2)))
    );
    assert_eq!(
        word_peek("$$abc"),
        Ok(("abc", special_var(SpecialVar::Pid, 0, 2)))
    );
    assert_eq!(
        word_peek("$!foo"),
        Ok(("foo", special_var(SpecialVar::BackgroundPid, 0, 2)))
    );
    assert_eq!(
        word_peek("$@var"),
        Ok(("var", special_var(SpecialVar::ShellName, 0, 2)))
    );
}

#[test]
fn comment_test() {
    let comment_only = |comment: &str| ShellCommand {
        commands: vec![],
        comment: Some(comment.to_string()),
    };

    assert_eq!(parse_shell_command("# comment"), Ok(comment_only(" comment")));
    assert_eq!(parse_shell_command("#comment"), Ok(comment_only("comment")));
    assert_eq!(parse_shell_command("#"), Ok(comment_only("")));
    assert_eq!(parse_shell_command("# "), Ok(comment_only(" ")));
    assert_eq!(
        parse_shell_command("#  multiple  spaces"),
        Ok(comment_only("  multiple  spaces"))
    );
    assert_eq!(
        parse_shell_command("# 日本語コメント"),
        Ok(comment_only(" 日本語コメント"))
    );

    assert_eq!(
        parse_shell_command("echo hello # comment"),
        Ok(shell(("echo", 0, 4), &[("hello", 5, 10)], Some(" comment")))
    );
    assert_eq!(
        parse_shell_command("echo hello #comment"),
        Ok(shell(("echo", 0, 4), &[("hello", 5, 10)], Some("comment")))
    );
    assert_eq!(
        parse_shell_command("echo hello #"),
        Ok(shell(("echo", 0, 4), &[("hello", 5, 10)], Some("")))
    );
    assert_eq!(
        parse_shell_command("echo hello  #  spaced"),
        Ok(shell(("echo", 0, 4), &[("hello", 5, 10)], Some("  spaced")))
    );
    assert_eq!(
        parse_shell_command("echo # comment"),
        Ok(shell(("echo", 0, 4), &[], Some(" comment")))
    );
    assert_eq!(
        parse_shell_command("ls -la /tmp # list files"),
        Ok(shell(
            ("ls", 0, 2),
            &[("-la", 3, 6), ("/tmp", 7, 11)],
            Some(" list files")
        ))
    );

    assert_eq!(
        parse_shell_command("echo hello"),
        Ok(shell(("echo", 0, 4), &[("hello", 5, 10)], None))
    );
    assert_eq!(
        parse_shell_command("echo"),
        Ok(shell(("echo", 0, 4), &[], None))
    );
    assert_eq!(
        parse_shell_command("ls -la"),
        Ok(shell(("ls", 0, 2), &[("-la", 3, 6)], None))
    );

    let whitespace = Ok(ShellCommand {
        commands: vec![],
        comment: None,
    });
    assert_eq!(parse_shell_command(""), whitespace);
    assert_eq!(parse_shell_command(" "), whitespace);
    assert_eq!(parse_shell_command("   "), whitespace);
    assert_eq!(parse_shell_command("\t"), whitespace);
    assert_eq!(parse_shell_command("\u{3000}"), whitespace);

    assert_eq!(
        parse_shell_command("echo hello#world"),
        Ok(shell(("echo", 0, 4), &[("hello#world", 5, 16)], None))
    );
    assert_eq!(
        parse_shell_command("echo#comment"),
        Ok(shell(("echo#comment", 0, 12), &[], None))
    );
    assert_eq!(
        parse_shell_command("file#1"),
        Ok(shell(("file#1", 0, 6), &[], None))
    );
    assert_eq!(
        parse_shell_command("echo a#b c#d"),
        Ok(shell(
            ("echo", 0, 4),
            &[("a#b", 5, 8), ("c#d", 9, 12)],
            None
        ))
    );
    assert_eq!(
        parse_shell_command("echo a#b #comment"),
        Ok(shell(("echo", 0, 4), &[("a#b", 5, 8)], Some("comment")))
    );

    assert_eq!(
        parse_shell_command("echo \"hello # world\""),
        Ok(shell(("echo", 0, 4), &[("hello # world", 5, 20)], None))
    );
    assert_eq!(
        parse_shell_command("echo 'hello # world'"),
        Ok(shell(("echo", 0, 4), &[("hello # world", 5, 20)], None))
    );
    assert_eq!(
        parse_shell_command("echo \"a#b\" #comment"),
        Ok(shell(("echo", 0, 4), &[("a#b", 5, 10)], Some("comment")))
    );
    assert_eq!(
        parse_shell_command(r#"echo r"C:\#path""#),
        Ok(shell(("echo", 0, 4), &[(r"C:\#path", 5, 16)], None))
    );
    assert_eq!(
        parse_shell_command(r#"echo p"~/#dir""#),
        Ok(ShellCommand {
            commands: vec![(
                Command {
                    name: literal("echo", 0, 4),
                    args: vec![path_literal("~/#dir", 5, 14)]
                },
                None
            )],
            comment: None
        })
    );

    assert_eq!(
        parse_shell_command(r#"echo "hello" world # comment"#),
        Ok(shell(
            ("echo", 0, 4),
            &[("hello", 5, 12), ("world", 13, 18)],
            Some(" comment")
        ))
    );
    assert_eq!(
        parse_shell_command(r#"echo "a # b" c # real comment"#),
        Ok(shell(
            ("echo", 0, 4),
            &[("a # b", 5, 12), ("c", 13, 14)],
            Some(" real comment")
        ))
    );
    assert_eq!(
        parse_shell_command(r#"cmd arg1 "arg #2" arg3 # end"#),
        Ok(shell(
            ("cmd", 0, 3),
            &[("arg1", 4, 8), ("arg #2", 9, 17), ("arg3", 18, 22)],
            Some(" end")
        ))
    );
    assert_eq!(
        parse_shell_command("echo $PATH # show path"),
        Ok(ShellCommand {
            commands: vec![(
                Command {
                    name: literal("echo", 0, 4),
                    args: vec![env_var("PATH", 5, 10)]
                },
                None
            )],
            comment: Some(" show path".to_string())
        })
    );
    assert_eq!(
        parse_shell_command("echo %var # shell var"),
        Ok(ShellCommand {
            commands: vec![(
                Command {
                    name: literal("echo", 0, 4),
                    args: vec![shell_var("var", 5, 9)]
                },
                None
            )],
            comment: Some(" shell var".to_string())
        })
    );
}
