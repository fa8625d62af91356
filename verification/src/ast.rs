//! The parsed form of a line: words, commands, and their spans.

use vstd::prelude::*;

verus! {

/// Half-open byte-offset range `[start, end)` into the original input line.
#[derive(Clone, Copy, Debug, PartialEq, Eq)]
pub struct Span {
    pub start: usize,
    pub end: usize,
}

/// A value paired with the span it was parsed from.
///
/// Equality compares both the value and the span: the span is part of the
/// parse result, not incidental metadata. No ordering is provided.
#[derive(Clone, Debug, PartialEq, Eq)]
pub struct Spanned<T> {
    pub inner: T,
    pub span: Span,
}

/// The mathematical form of a `Spanned` value: the inner view with the
/// span bounds as unbounded integers.
pub struct SpannedView<V> {
    pub inner: V,
    pub start: int,
    pub end: int,
}

impl<T: View> View for Spanned<T> {
    type V = SpannedView<T::V>;

    open spec fn view(&self) -> SpannedView<T::V> {
        SpannedView {
            inner: self.inner@,
            start: self.span.start as int,
            end: self.span.end as int,
        }
    }
}

/// The four one-character variable forms: `$?`, `$$`, `$!`, `$@`.
#[derive(Clone, Copy, Debug, PartialEq, Eq)]
pub enum SpecialVar {
    ExitStatus,
    Pid,
    BackgroundPid,
    ShellName,
}

/// One word of a command line. The payload of a literal is the decoded
/// text: delimiters consumed from the input never appear in it.
#[derive(Clone, Debug, PartialEq, Eq)]
pub enum Word {
    Literal(String),
    PathLiteral(String),
    SpecialVar(SpecialVar),
    EnvVar(String),
    ShellVar(String),
}

/// The mathematical form of a `Word`: text as character sequences.
pub enum WordView {
    Literal(Seq<char>),
    PathLiteral(Seq<char>),
    SpecialVar(SpecialVar),
    EnvVar(Seq<char>),
    ShellVar(Seq<char>),
}

impl View for Word {
    type V = WordView;

    open spec fn view(&self) -> WordView {
        match self {
            Word::Literal(s) => WordView::Literal(s@),
            Word::PathLiteral(s) => WordView::PathLiteral(s@),
            Word::SpecialVar(v) => WordView::SpecialVar(*v),
            Word::EnvVar(s) => WordView::EnvVar(s@),
            Word::ShellVar(s) => WordView::ShellVar(s@),
        }
    }
}

/// A command: its name word and its argument words, in order.
#[derive(Clone, Debug, PartialEq, Eq)]
pub struct Command {
    pub name: Spanned<Word>,
    pub args: Vec<Spanned<Word>>,
}

/// The mathematical form of a `Command`.
pub struct CommandView {
    pub name: SpannedView<WordView>,
    pub args: Seq<SpannedView<WordView>>,
}

impl View for Command {
    type V = CommandView;

    open spec fn view(&self) -> CommandView {
        CommandView {
            name: self.name@,
            args: self.args@.map(|i: int, a: Spanned<Word>| a@),
        }
    }
}

/// Placeholder for a future pipe operator between commands; the grammar
/// never produces one today.
#[derive(Clone, Copy, Debug, PartialEq, Eq)]
pub enum Pipe {
    Split,
    Pipe,
    In,
    Out,
}

/// A parsed line: at most one command today, and the optional trailing
/// comment text (everything after `#`, verbatim).
#[derive(Clone, Debug, PartialEq, Eq)]
pub struct ShellCommand {
    pub commands: Vec<(Command, Option<Pipe>)>,
    pub comment: Option<String>,
}

/// The mathematical form of a `ShellCommand`.
pub struct ShellCommandView {
    pub commands: Seq<(CommandView, Option<Pipe>)>,
    pub comment: Option<Seq<char>>,
}

impl View for ShellCommand {
    type V = ShellCommandView;

    open spec fn view(&self) -> ShellCommandView {
        ShellCommandView {
            commands: self.commands@.map(|i: int, t: (Command, Option<Pipe>)| (t.0@, t.1)),
            comment: match &self.comment {
                Some(s) => Some(s@),
                None => None,
            },
        }
    }
}

} // verus!
