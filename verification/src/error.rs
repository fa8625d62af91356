//! The parser's error model: a reason code, a single byte offset, and a
//! two-level severity.
//!
//! A failure is *recoverable* while the grammar may still try a sibling
//! alternative, and *fatal* once a form has committed to an unambiguous
//! lexical marker (an opening quote, the `u{` of a unicode escape, the
//! `#`-counted delimiter of a raw or path literal). Fatal failures
//! propagate to the caller unchanged.

use vstd::prelude::*;

verus! {

/// Why a `\u{...}` escape was rejected.
#[derive(Clone, Copy, Debug, PartialEq, Eq)]
pub enum UnicodeEscapeError {
    /// `\u` was not followed by `{`.
    NoBeginBrace,
    /// No closing `}` before the end of the input.
    NoEndBrace,
    /// The digits name a surrogate or a value above 0x10FFFF.
    InvalidUnicode,
}

/// Why the digits of a `\u{...}` escape failed to parse.
#[derive(Clone, Copy, Debug, PartialEq, Eq)]
pub enum HexError {
    /// No digits between the braces.
    Empty,
    /// A character that is not a hexadecimal digit.
    InvalidDigit,
    /// The value does not fit in 32 bits.
    Overflow,
}

/// The reason a parse failed.
#[derive(Clone, Copy, Debug, PartialEq, Eq)]
pub enum ParseErrorKind {
    /// A variable name was expected and its first character is missing or
    /// cannot start an identifier.
    NoIdent,
    /// The variable name is a bare `_`.
    InvalidIdent,
    /// `\` followed by a character that names no escape.
    UnrecognizedEscape(char),
    /// A malformed `\u{...}` escape.
    InvalidUnicodeEscape(UnicodeEscapeError),
    /// The digits of a `\u{...}` escape failed to parse.
    ParseHexError(HexError),
    /// A single-quoted literal without its closing `'`.
    NoEndQuotation,
    /// A double-quoted literal without its closing `"`.
    NoEndDoubleQuotation,
    /// Any other failure, including input left over after the grammar.
    Other,
}

/// A parse failure: its reason and the byte offset at which the condition
/// was detected.
#[derive(Clone, Copy, Debug, PartialEq, Eq)]
pub struct ParseError {
    pub kind: ParseErrorKind,
    pub span: usize,
}

/// An in-flight failure: a `ParseError` plus whether it is fatal.
///
/// A recoverable failure lets the enclosing alternative try its next
/// branch; a fatal one is reported as it stands.
#[derive(Clone, Copy, Debug, PartialEq, Eq)]
pub struct Failure {
    pub fatal: bool,
    pub error: ParseError,
}

/// The message shown for each error kind.
pub open spec fn kind_message(k: ParseErrorKind) -> Seq<char> {
    match k {
        ParseErrorKind::ParseHexError(HexError::Empty) => "空です"@,
        ParseErrorKind::ParseHexError(HexError::InvalidDigit) => "16進数で書いてください"@,
        ParseErrorKind::ParseHexError(HexError::Overflow) => "大きすぎます"@,
        ParseErrorKind::InvalidUnicodeEscape(_) => "不正なUnicodeです"@,
        ParseErrorKind::InvalidIdent => "不正な名前です"@,
        ParseErrorKind::NoIdent => "不正な名前です"@,
        ParseErrorKind::UnrecognizedEscape(c) => "不明なエスケープ \\"@ + seq![c] + " です"@,
        ParseErrorKind::NoEndQuotation => "クォーテーションを閉じてください"@,
        ParseErrorKind::NoEndDoubleQuotation => "ダブルクォーテーションを閉じてください"@,
        ParseErrorKind::Other => "不明なエラーです"@,
    }
}

impl ParseErrorKind {
    /// The human-readable message for this kind.
    pub fn message(&self) -> (r: String)
        ensures
            r@ == kind_message(*self),
    {
        match self {
            ParseErrorKind::ParseHexError(HexError::Empty) => String::from_str("空です"),
            ParseErrorKind::ParseHexError(HexError::InvalidDigit) => String::from_str(
                "16進数で書いてください",
            ),
            ParseErrorKind::ParseHexError(HexError::Overflow) => String::from_str("大きすぎます"),
            ParseErrorKind::InvalidUnicodeEscape(_) => String::from_str("不正なUnicodeです"),
            ParseErrorKind::InvalidIdent => String::from_str("不正な名前です"),
            ParseErrorKind::NoIdent => String::from_str("不正な名前です"),
            ParseErrorKind::UnrecognizedEscape(c) => {
                let mut v = crate::chars::str_to_chars("不明なエスケープ \\");
                v.push(*c);
                let mut tail = crate::chars::str_to_chars(" です");
                v.append(&mut tail);
                crate::chars::chars_to_string(&v)
            },
            ParseErrorKind::NoEndQuotation => String::from_str(
                "クォーテーションを閉じてください",
            ),
            ParseErrorKind::NoEndDoubleQuotation => String::from_str(
                "ダブルクォーテーションを閉じてください",
            ),
            ParseErrorKind::Other => String::from_str("不明なエラーです"),
        }
    }
}

/// The spaces that place the caret under the failure offset.
pub open spec fn caret_pad(n: int) -> Seq<char> {
    Seq::new(n as nat, |k: int| ' ')
}

/// The two-line report: the input with line breaks blanked, a line
/// break, spaces up to the failure offset, then a caret and the message.
pub open spec fn display_text(e: ParseError, s: Seq<char>) -> Seq<char> {
    s.map(
        |k: int, c: char|
            if c == '\n' || c == '\r' {
                ' '
            } else {
                c
            },
    ) + seq!['\n'] + caret_pad(e.span as int) + seq!['^', ' '] + kind_message(e.kind) + seq!['\n']
}

impl ParseError {
    /// Render the report for this error over the line it came from.
    pub fn display(&self, input: &str) -> (r: String)
        ensures
            r@ == display_text(*self, input@),
    {
        let src = crate::chars::str_to_chars(input);
        proof {
            crate::chars::lemma_fits_len(src@);
        }
        let ghost mapped = src@.map(
            |k: int, c: char|
                if c == '\n' || c == '\r' {
                    ' '
                } else {
                    c
                },
        );
        let mut out: Vec<char> = Vec::new();
        let mut k: usize = 0;
        assert(out@ =~= mapped.take(0));
        while k < src.len()
            invariant
                k <= src@.len(),
            src@.len() <= usize::MAX,
                mapped == src@.map(
                    |k: int, c: char|
                        if c == '\n' || c == '\r' {
                            ' '
                        } else {
                            c
                        },
                ),
                out@ == mapped.take(k as int),
            decreases src@.len() - k,
        {
            let c = src[k];
            if c == '\n' || c == '\r' {
                out.push(' ');
            } else {
                out.push(c);
            }
            proof {
                assert(mapped.take(k as int + 1) =~= mapped.take(k as int).push(
                    mapped[k as int],
                ));
            }
            k = k + 1;
        }
        assert(mapped.take(src@.len() as int) =~= mapped);
        out.push('\n');
        let ghost base = out@;
        let mut p: usize = 0;
        assert(caret_pad(0) =~= Seq::<char>::empty());
        assert(out@ =~= base + caret_pad(0));
        while p < self.span
            invariant
                p <= self.span,
                base == mapped + seq!['\n'],
                out@ == base + caret_pad(p as int),
            decreases self.span - p,
        {
            out.push(' ');
            proof {
                assert(caret_pad(p as int + 1) =~= caret_pad(p as int).push(' '));
                assert(base + caret_pad(p as int + 1) =~= (base + caret_pad(p as int)).push(' '));
            }
            p = p + 1;
        }
        out.push('^');
        out.push(' ');
        let msg = self.kind.message();
        let mut mv = crate::chars::str_to_chars(msg.as_str());
        out.append(&mut mv);
        out.push('\n');
        assert(out@ =~= display_text(*self, input@));
        crate::chars::chars_to_string(&out)
    }
}

} // verus!
