//! The line grammar, stated as specification functions.
//!
//! Each production maps the input character sequence and a character index
//! to a [`Step`]: success with a value and the index after it, a
//! recoverable failure, or a fatal failure with its reason and byte
//! offset. The executable parser is verified to return exactly what these
//! functions say.

use vstd::prelude::*;

verus! {

use crate::chars::byte_off;
use crate::chars::is_space_char;
use crate::chars::is_xid_continue_char;
use crate::chars::is_xid_start_char;
use crate::ast::CommandView;
use crate::ast::Pipe;
use crate::ast::ShellCommandView;
use crate::ast::SpannedView;
use crate::ast::SpecialVar;
use crate::ast::WordView;
use crate::error::HexError;
use crate::error::ParseErrorKind;
use crate::error::UnicodeEscapeError;
use vstd::utf8::is_scalar;

/// The outcome of one grammar production: success with a value and the
/// character index just after what was consumed; a recoverable failure
/// that lets a sibling alternative run; or a fatal failure carrying its
/// reason and the byte offset where it was detected.
pub enum Step<T> {
    Parsed { v: T, next: int },
    Back,
    Fatal { kind: ParseErrorKind, at: int },
}

/// `i` is a position in `s`: between the start and one past the end.
pub open spec fn in_bounds(s: Seq<char>, i: int) -> bool {
    0 <= i <= s.len()
}

/// The characters that terminate an unquoted run besides whitespace.
pub open spec fn is_stop_char(c: char) -> bool {
    c == '(' || c == ')' || c == '{' || c == '}' || c == '|' || c == '<' || c == '>' || c == ';'
        || c == '&'
}

/// Whatever ends an unquoted run: whitespace or a stop character.
pub open spec fn ends_unquoted(c: char) -> bool {
    is_space_char(c) || is_stop_char(c)
}

/// The index of the first non-whitespace character at or after `i`.
pub open spec fn skip_space(s: Seq<char>, i: int) -> int
    decreases s.len() - i
        when in_bounds(s, i)
{
    if i < s.len() && is_space_char(s[i]) {
        skip_space(s, i + 1)
    } else {
        i
    }
}

/// The index of the first character at or after `i` that is not `#`.
pub open spec fn skip_hashes(s: Seq<char>, i: int) -> int
    decreases s.len() - i
        when in_bounds(s, i)
{
    if i < s.len() && s[i] == '#' {
        skip_hashes(s, i + 1)
    } else {
        i
    }
}

/// The index of the first character at or after `i` that cannot continue
/// an identifier.
pub open spec fn skip_ident(s: Seq<char>, i: int) -> int
    decreases s.len() - i
        when in_bounds(s, i)
{
    if i < s.len() && is_xid_continue_char(s[i]) {
        skip_ident(s, i + 1)
    } else {
        i
    }
}

/// The index of the first character at or after `i` that ends an unquoted
/// run.
pub open spec fn scan_unquoted(s: Seq<char>, i: int) -> int
    decreases s.len() - i
        when in_bounds(s, i)
{
    if i < s.len() && !ends_unquoted(s[i]) {
        scan_unquoted(s, i + 1)
    } else {
        i
    }
}

/// The index of the first occurrence of `c` at or after `i`, if any.
pub open spec fn find_char(s: Seq<char>, i: int, c: char) -> Option<int>
    decreases s.len() - i
        when in_bounds(s, i)
{
    if i >= s.len() {
        None
    } else if s[i] == c {
        Some(i)
    } else {
        find_char(s, i + 1, c)
    }
}

/// A closing delimiter of a raw or path literal stands at `j`: a `"`
/// followed by exactly the `n` `#` characters counted at the opening.
pub open spec fn closer_at(s: Seq<char>, j: int, n: int) -> bool {
    &&& j + n + 1 <= s.len()
    &&& s[j] == '"'
    &&& forall|q: int| j < q <= j + n ==> s[q] == '#'
}

/// The first index at or after `i` where the closing delimiter stands.
pub open spec fn find_closer(s: Seq<char>, i: int, n: int) -> Option<int>
    decreases s.len() - i
        when in_bounds(s, i)
{
    if i >= s.len() {
        None
    } else if closer_at(s, i, n) {
        Some(i)
    } else {
        find_closer(s, i + 1, n)
    }
}

/// Hexadecimal digits and their values.
pub open spec fn is_hex_digit(c: char) -> bool {
    (0x30 <= c as int && c as int <= 0x39) || (0x61 <= c as int && c as int <= 0x66) || (0x41
        <= c as int && c as int <= 0x46)
}

/// The numeric value of one hexadecimal digit.
pub open spec fn hex_digit_val(c: char) -> int {
    if 0x30 <= c as int && c as int <= 0x39 {
        c as int - 0x30
    } else if 0x61 <= c as int && c as int <= 0x66 {
        c as int - 0x61 + 10
    } else {
        c as int - 0x41 + 10
    }
}

/// Left-to-right accumulation of hexadecimal digits, 32-bit bounded: the
/// first offending character decides between the invalid-digit and
/// overflow causes, as `u32::from_str_radix` does.
pub open spec fn hex_scan(ds: Seq<char>, acc: int) -> Result<int, HexError>
    decreases ds.len(),
{
    if ds.len() == 0 {
        Ok(acc)
    } else if !is_hex_digit(ds[0]) {
        Err(HexError::InvalidDigit)
    } else {
        let v = acc * 16 + hex_digit_val(ds[0]);
        if v > 0xFFFFFFFF {
            Err(HexError::Overflow)
        } else {
            hex_scan(ds.drop_first(), v)
        }
    }
}

/// The value of the digit run between the braces of a `\u{...}` escape.
pub open spec fn hex_value(ds: Seq<char>) -> Result<int, HexError> {
    if ds.len() == 0 {
        Err(HexError::Empty)
    } else {
        hex_scan(ds, 0)
    }
}

/// A `\u{...}` escape, entered at the `u` (`s[i] == 'u'`). Once the `u`
/// is seen every failure is fatal.
pub open spec fn esc_unicode(s: Seq<char>, i: int) -> Step<char> {
    if i + 1 >= s.len() || s[i + 1] != '{' {
        Step::Fatal {
            kind: ParseErrorKind::InvalidUnicodeEscape(UnicodeEscapeError::NoBeginBrace),
            at: byte_off(s, i + 1),
        }
    } else {
        let h = i + 2;
        match find_char(s, h, '}') {
            None => Step::Fatal {
                kind: ParseErrorKind::InvalidUnicodeEscape(UnicodeEscapeError::NoEndBrace),
                at: byte_off(s, h),
            },
            Some(e) => match hex_value(s.subrange(h, e)) {
                Err(he) => Step::Fatal { kind: ParseErrorKind::ParseHexError(he), at: byte_off(s, h) },
                Ok(v) => if is_scalar(v as u32) {
                    Step::Parsed { v: (v as u32) as char, next: e + 1 }
                } else {
                    Step::Fatal {
                        kind: ParseErrorKind::InvalidUnicodeEscape(UnicodeEscapeError::InvalidUnicode),
                        at: byte_off(s, h),
                    }
                },
            },
        }
    }
}

/// An escape sequence, entered at the backslash (`s[i] == '\\'`). A lone
/// backslash at the end of the input is recoverable; an unknown dispatch
/// character is fatal.
pub open spec fn esc(s: Seq<char>, i: int) -> Step<char> {
    if i + 1 >= s.len() {
        Step::Back
    } else {
        let c = s[i + 1];
        if c == 'n' {
            Step::Parsed { v: '\n', next: i + 2 }
        } else if c == 'r' {
            Step::Parsed { v: '\r', next: i + 2 }
        } else if c == 't' {
            Step::Parsed { v: '\t', next: i + 2 }
        } else if c == '\\' {
            Step::Parsed { v: '\\', next: i + 2 }
        } else if c == '"' {
            Step::Parsed { v: '"', next: i + 2 }
        } else if c == '\'' {
            Step::Parsed { v: '\'', next: i + 2 }
        } else if c == '0' {
            Step::Parsed { v: '\0', next: i + 2 }
        } else if c == 'u' {
            esc_unicode(s, i + 1)
        } else {
            Step::Fatal { kind: ParseErrorKind::UnrecognizedEscape(c), at: byte_off(s, i + 1) }
        }
    }
}

/// The error reported when a quoted literal's closing delimiter is
/// missing.
pub open spec fn quote_end_kind(d: char) -> ParseErrorKind {
    if d == '\'' {
        ParseErrorKind::NoEndQuotation
    } else {
        ParseErrorKind::NoEndDoubleQuotation
    }
}

/// The decoded content of a quoted literal, scanning from `i` (just after
/// the opening delimiter `d`) until the closing `d`. Escapes are decoded;
/// a backslash that ends the input stands for itself; a missing closer is
/// fatal at the position where the input ran out.
pub open spec fn quoted_body(s: Seq<char>, i: int, d: char, acc: Seq<char>) -> Step<Seq<char>>
    decreases s.len() - i
        when in_bounds(s, i)
        via quoted_body_dec
{
    if i >= s.len() {
        Step::Fatal { kind: quote_end_kind(d), at: byte_off(s, i) }
    } else if s[i] == d {
        Step::Parsed { v: acc, next: i + 1 }
    } else if s[i] == '\\' {
        match esc(s, i) {
            Step::Parsed { v, next } => quoted_body(s, next, d, acc.push(v)),
            Step::Back => quoted_body(s, i + 1, d, acc.push('\\')),
            Step::Fatal { kind, at } => Step::Fatal { kind, at },
        }
    } else {
        quoted_body(s, i + 1, d, acc.push(s[i]))
    }
}

#[via_fn]
proof fn quoted_body_dec(s: Seq<char>, i: int, d: char, acc: Seq<char>) {
    if in_bounds(s, i) && i < s.len() && s[i] != d && s[i] == '\\' {
        lemma_esc_ok_bounds(s, i);
    }
}

/// The verbatim content of a raw or path literal, entered at the `r` or
/// `p`. Recoverable until the `#`-counted delimiter is complete; after
/// that, a missing closer is fatal at the start of the content.
pub open spec fn raw_body(s: Seq<char>, i: int) -> Step<Seq<char>> {
    let m = skip_hashes(s, i + 1);
    let n = m - (i + 1);
    if m >= s.len() || s[m] != '"' {
        Step::Back
    } else {
        let c0 = m + 1;
        match find_closer(s, c0, n) {
            None => Step::Fatal { kind: ParseErrorKind::Other, at: byte_off(s, c0) },
            Some(q) => Step::Parsed { v: s.subrange(c0, q), next: q + n + 1 },
        }
    }
}

/// Whether the character after the `r` or `p` at `i` opens a raw form: a
/// run of `#` followed by `"`.
pub open spec fn raw_opening(s: Seq<char>, i: int) -> bool {
    let m = skip_hashes(s, i + 1);
    m < s.len() && s[m] == '"'
}

/// An identifier, entered at its first character (after the `$` or `%`).
/// All failures are fatal: the sigil has committed the form.
pub open spec fn ident_body(s: Seq<char>, i: int) -> Step<Seq<char>> {
    if i >= s.len() || !(s[i] == '_' || is_xid_start_char(s[i])) {
        Step::Fatal { kind: ParseErrorKind::NoIdent, at: byte_off(s, i) }
    } else {
        let j = skip_ident(s, i + 1);
        if s[i] == '_' && j == i + 1 {
            Step::Fatal { kind: ParseErrorKind::InvalidIdent, at: byte_off(s, i) }
        } else {
            Step::Parsed { v: s.subrange(i, j), next: j }
        }
    }
}

/// The four special variable forms, entered just after the `$`.
pub open spec fn special_body(s: Seq<char>, i: int) -> Step<SpecialVar> {
    if i < s.len() && s[i] == '?' {
        Step::Parsed { v: SpecialVar::ExitStatus, next: i + 1 }
    } else if i < s.len() && s[i] == '$' {
        Step::Parsed { v: SpecialVar::Pid, next: i + 1 }
    } else if i < s.len() && s[i] == '!' {
        Step::Parsed { v: SpecialVar::BackgroundPid, next: i + 1 }
    } else if i < s.len() && s[i] == '@' {
        Step::Parsed { v: SpecialVar::ShellName, next: i + 1 }
    } else {
        Step::Back
    }
}

/// One literal segment of a word: a quoted, raw, path, or unquoted form.
/// The flag is true for a path literal. A leading `$` or `%` never
/// reaches here at the start of a word; inside a word both are ordinary
/// unquoted characters.
pub open spec fn segment(s: Seq<char>, i: int) -> Step<(Seq<char>, bool)> {
    if i >= s.len() {
        Step::Back
    } else {
        let c = s[i];
        if c == '\'' || c == '"' {
            match quoted_body(s, i + 1, c, Seq::empty()) {
                Step::Parsed { v, next } => Step::Parsed { v: (v, false), next },
                Step::Back => Step::Back,
                Step::Fatal { kind, at } => Step::Fatal { kind, at },
            }
        } else if c == 'r' && raw_opening(s, i) {
            match raw_body(s, i) {
                Step::Parsed { v, next } => Step::Parsed { v: (v, false), next },
                Step::Back => Step::Back,
                Step::Fatal { kind, at } => Step::Fatal { kind, at },
            }
        } else if c == 'p' && raw_opening(s, i) {
            match raw_body(s, i) {
                Step::Parsed { v, next } => Step::Parsed { v: (v, true), next },
                Step::Back => Step::Back,
                Step::Fatal { kind, at } => Step::Fatal { kind, at },
            }
        } else if !ends_unquoted(c) {
            Step::Parsed { v: (s.subrange(i, scan_unquoted(s, i)), false), next: scan_unquoted(s, i) }
        } else {
            Step::Back
        }
    }
}

/// The remaining segments of a word: immediately adjacent literal forms
/// concatenate into one word until a segment fails to start.
pub open spec fn run_rest(s: Seq<char>, i: int, acc: Seq<char>) -> Step<Seq<char>>
    decreases s.len() - i
        when in_bounds(s, i)
        via run_rest_dec
{
    match segment(s, i) {
        Step::Back => Step::Parsed { v: acc, next: i },
        Step::Fatal { kind, at } => Step::Fatal { kind, at },
        Step::Parsed { v, next } => run_rest(s, next, acc + v.0),
    }
}

#[via_fn]
proof fn run_rest_dec(s: Seq<char>, i: int, acc: Seq<char>) {
    if in_bounds(s, i) {
        lemma_segment_ok_bounds(s, i);
    }
}

/// One word, entered at its first character. A leading `$` dispatches to
/// the special and environment variable forms, a leading `%` to the shell
/// variable form; anything else begins a run of literal segments whose
/// first segment fixes the tag. The span covers exactly the consumed
/// characters, as byte offsets.
pub open spec fn word_step(s: Seq<char>, i: int) -> Step<SpannedView<WordView>> {
    if i >= s.len() {
        Step::Back
    } else {
        let c = s[i];
        if c == '$' {
            match special_body(s, i + 1) {
                Step::Parsed { v, next } => Step::Parsed {
                    v: SpannedView {
                        inner: WordView::SpecialVar(v),
                        start: byte_off(s, i),
                        end: byte_off(s, next),
                    },
                    next,
                },
                _ => match ident_body(s, i + 1) {
                    Step::Parsed { v, next } => Step::Parsed {
                        v: SpannedView {
                            inner: WordView::EnvVar(v),
                            start: byte_off(s, i),
                            end: byte_off(s, next),
                        },
                        next,
                    },
                    Step::Back => Step::Back,
                    Step::Fatal { kind, at } => Step::Fatal { kind, at },
                },
            }
        } else if c == '%' {
            match ident_body(s, i + 1) {
                Step::Parsed { v, next } => Step::Parsed {
                    v: SpannedView {
                        inner: WordView::ShellVar(v),
                        start: byte_off(s, i),
                        end: byte_off(s, next),
                    },
                    next,
                },
                Step::Back => Step::Back,
                Step::Fatal { kind, at } => Step::Fatal { kind, at },
            }
        } else {
            match segment(s, i) {
                Step::Back => Step::Back,
                Step::Fatal { kind, at } => Step::Fatal { kind, at },
                Step::Parsed { v, next } => match run_rest(s, next, v.0) {
                    Step::Parsed { v: text, next: j } => Step::Parsed {
                        v: SpannedView {
                            inner: if v.1 {
                                WordView::PathLiteral(text)
                            } else {
                                WordView::Literal(text)
                            },
                            start: byte_off(s, i),
                            end: byte_off(s, j),
                        },
                        next: j,
                    },
                    Step::Back => Step::Back,
                    Step::Fatal { kind, at } => Step::Fatal { kind, at },
                },
            }
        }
    }
}

/// The argument words after the command name: each is preceded by at
/// least one whitespace character, and a `#` at the next word position
/// hands over to the comment instead. On any recoverable failure the
/// position resets to just after the previous word.
pub open spec fn args_rest(s: Seq<char>, i: int, acc: Seq<SpannedView<WordView>>) -> Step<
    Seq<SpannedView<WordView>>,
>
    decreases s.len() - i
        when in_bounds(s, i)
        via args_rest_dec
{
    let j = skip_space(s, i);
    if j == i {
        Step::Parsed { v: acc, next: i }
    } else if j < s.len() && s[j] == '#' {
        Step::Parsed { v: acc, next: i }
    } else {
        match word_step(s, j) {
            Step::Back => Step::Parsed { v: acc, next: i },
            Step::Fatal { kind, at } => Step::Fatal { kind, at },
            Step::Parsed { v, next } => args_rest(s, next, acc.push(v)),
        }
    }
}

#[via_fn]
proof fn args_rest_dec(s: Seq<char>, i: int, acc: Seq<SpannedView<WordView>>) {
    if in_bounds(s, i) {
        lemma_skip_space(s, i);
        lemma_word_ok_bounds(s, skip_space(s, i));
    }
}

/// One command: a name word followed by its arguments.
pub open spec fn command_step(s: Seq<char>, i: int) -> Step<CommandView> {
    match word_step(s, i) {
        Step::Back => Step::Back,
        Step::Fatal { kind, at } => Step::Fatal { kind, at },
        Step::Parsed { v: name, next } => match args_rest(s, next, Seq::empty()) {
            Step::Parsed { v: args, next: j } => Step::Parsed { v: CommandView { name, args }, next: j },
            Step::Back => Step::Back,
            Step::Fatal { kind, at } => Step::Fatal { kind, at },
        },
    }
}

/// After the optional command: optional whitespace, an optional
/// `#`-comment running verbatim to the end of the line, trailing
/// whitespace, and nothing else. Leftover input is reported as `Other` at
/// its byte offset.
pub open spec fn line_tail(
    s: Seq<char>,
    cmds: Seq<(CommandView, Option<Pipe>)>,
    i: int,
) -> Result<ShellCommandView, (ParseErrorKind, int)> {
    let j = skip_space(s, i);
    if j < s.len() && s[j] == '#' {
        Ok(
            ShellCommandView {
                commands: cmds,
                comment: Some(s.subrange(j + 1, s.len() as int)),
            },
        )
    } else if j == s.len() {
        Ok(ShellCommandView { commands: cmds, comment: None })
    } else {
        Err((ParseErrorKind::Other, byte_off(s, j)))
    }
}

/// A whole line: leading whitespace, at most one command (attempted only
/// when the first significant character is not `#`), then the tail.
pub open spec fn line_step(s: Seq<char>) -> Result<ShellCommandView, (ParseErrorKind, int)> {
    let i0 = skip_space(s, 0);
    if i0 < s.len() && s[i0] == '#' {
        line_tail(s, Seq::empty(), i0)
    } else {
        match command_step(s, i0) {
            Step::Fatal { kind, at } => Err((kind, at)),
            Step::Back => line_tail(s, Seq::empty(), i0),
            Step::Parsed { v, next } => line_tail(s, seq![(v, None::<Pipe>)], next),
        }
    }
}

/// A single word parsed from the whole input, as the word-level entry
/// point does it: the word must consume every character.
pub open spec fn word_result(s: Seq<char>) -> Result<SpannedView<WordView>, (ParseErrorKind, int)> {
    match word_step(s, 0) {
        Step::Parsed { v, next } => if next == s.len() {
            Ok(v)
        } else {
            Err((ParseErrorKind::Other, byte_off(s, next)))
        },
        Step::Back => Err((ParseErrorKind::Other, 0)),
        Step::Fatal { kind, at } => Err((kind, at)),
    }
}

/// What `skip_space` finds: whitespace up to the result, which is the end
/// of the input or a non-whitespace character.
pub proof fn lemma_skip_space(s: Seq<char>, i: int)
    requires
        in_bounds(s, i),
    ensures
        i <= skip_space(s, i) <= s.len(),
        forall|k: int| i <= k < skip_space(s, i) ==> is_space_char(s[k]),
        skip_space(s, i) < s.len() ==> !is_space_char(s[skip_space(s, i)]),
    decreases s.len() - i,
{
    if i < s.len() && is_space_char(s[i]) {
        lemma_skip_space(s, i + 1);
    }
}

/// What `skip_hashes` finds.
pub proof fn lemma_skip_hashes(s: Seq<char>, i: int)
    requires
        in_bounds(s, i),
    ensures
        i <= skip_hashes(s, i) <= s.len(),
        forall|k: int| i <= k < skip_hashes(s, i) ==> s[k] == '#',
        skip_hashes(s, i) < s.len() ==> s[skip_hashes(s, i)] != '#',
    decreases s.len() - i,
{
    if i < s.len() && s[i] == '#' {
        lemma_skip_hashes(s, i + 1);
    }
}

/// What `skip_ident` finds.
pub proof fn lemma_skip_ident(s: Seq<char>, i: int)
    requires
        in_bounds(s, i),
    ensures
        i <= skip_ident(s, i) <= s.len(),
        forall|k: int| i <= k < skip_ident(s, i) ==> is_xid_continue_char(s[k]),
        skip_ident(s, i) < s.len() ==> !is_xid_continue_char(s[skip_ident(s, i)]),
    decreases s.len() - i,
{
    if i < s.len() && is_xid_continue_char(s[i]) {
        lemma_skip_ident(s, i + 1);
    }
}

/// What `scan_unquoted` finds.
pub proof fn lemma_scan_unquoted(s: Seq<char>, i: int)
    requires
        in_bounds(s, i),
    ensures
        i <= scan_unquoted(s, i) <= s.len(),
        forall|k: int| i <= k < scan_unquoted(s, i) ==> !ends_unquoted(s[k]),
        scan_unquoted(s, i) < s.len() ==> ends_unquoted(s[scan_unquoted(s, i)]),
    decreases s.len() - i,
{
    if i < s.len() && !ends_unquoted(s[i]) {
        lemma_scan_unquoted(s, i + 1);
    }
}

/// What `find_char` finds: the first occurrence, or none anywhere.
pub proof fn lemma_find_char(s: Seq<char>, i: int, c: char)
    requires
        in_bounds(s, i),
    ensures
        match find_char(s, i, c) {
            Some(e) => i <= e < s.len() && s[e] == c && forall|k: int| i <= k < e ==> s[k] != c,
            None => forall|k: int| i <= k < s.len() ==> s[k] != c,
        },
    decreases s.len() - i,
{
    if i < s.len() && s[i] != c {
        lemma_find_char(s, i + 1, c);
    }
}

/// What `find_closer` finds: the first position of the closing delimiter,
/// or none anywhere.
pub proof fn lemma_find_closer(s: Seq<char>, i: int, n: int)
    requires
        in_bounds(s, i),
        0 <= n,
    ensures
        match find_closer(s, i, n) {
            Some(q) => i <= q && closer_at(s, q, n) && forall|k: int| i <= k < q ==> !closer_at(s, k, n),
            None => forall|k: int| i <= k < s.len() ==> !closer_at(s, k, n),
        },
    decreases s.len() - i,
{
    if i < s.len() && !closer_at(s, i, n) {
        lemma_find_closer(s, i + 1, n);
    }
}

/// A successful escape consumes at least the backslash and its dispatch
/// character and stays within the input.
pub proof fn lemma_esc_ok_bounds(s: Seq<char>, i: int)
    requires
        in_bounds(s, i),
        i < s.len(),
    ensures
        match esc(s, i) {
            Step::Parsed { next, .. } => i + 2 <= next <= s.len(),
            _ => true,
        },
{
    if i + 1 < s.len() && s[i + 1] == 'u' {
        if i + 2 < s.len() && s[i + 2] == '{' {
            lemma_find_char(s, i + 3, '}');
        }
    }
}

/// A successful quoted body ends after its closing delimiter, within the
/// input.
pub proof fn lemma_quoted_body_ok_bounds(s: Seq<char>, i: int, d: char, acc: Seq<char>)
    requires
        in_bounds(s, i),
    ensures
        match quoted_body(s, i, d, acc) {
            Step::Parsed { next, .. } => i < next <= s.len(),
            _ => true,
        },
    decreases s.len() - i,
{
    if i < s.len() && s[i] != d {
        if s[i] == '\\' {
            lemma_esc_ok_bounds(s, i);
            match esc(s, i) {
                Step::Parsed { v, next } => lemma_quoted_body_ok_bounds(s, next, d, acc.push(v)),
                Step::Back => lemma_quoted_body_ok_bounds(s, i + 1, d, acc.push('\\')),
                Step::Fatal { .. } => (),
            }
        } else {
            lemma_quoted_body_ok_bounds(s, i + 1, d, acc.push(s[i]));
        }
    }
}

/// A successful raw or path body consumes its whole delimited form.
pub proof fn lemma_raw_body_ok_bounds(s: Seq<char>, i: int)
    requires
        in_bounds(s, i),
        i < s.len(),
    ensures
        match raw_body(s, i) {
            Step::Parsed { next, .. } => i < next <= s.len(),
            _ => true,
        },
{
    lemma_skip_hashes(s, i + 1);
    let m = skip_hashes(s, i + 1);
    let n = m - (i + 1);
    if m < s.len() && s[m] == '"' {
        lemma_find_closer(s, m + 1, n);
    }
}

/// A successful segment consumes at least one character.
pub proof fn lemma_segment_ok_bounds(s: Seq<char>, i: int)
    requires
        in_bounds(s, i),
    ensures
        match segment(s, i) {
            Step::Parsed { next, .. } => i < next <= s.len(),
            _ => true,
        },
{
    if i < s.len() {
        let c = s[i];
        if c == '\'' || c == '"' {
            lemma_quoted_body_ok_bounds(s, i + 1, c, Seq::empty());
        } else if (c == 'r' || c == 'p') && raw_opening(s, i) {
            lemma_raw_body_ok_bounds(s, i);
        } else if !ends_unquoted(c) {
            lemma_scan_unquoted(s, i);
        }
    }
}

/// A successful run of segments never moves backwards and stays within
/// the input.
pub proof fn lemma_run_rest_ok_bounds(s: Seq<char>, i: int, acc: Seq<char>)
    requires
        in_bounds(s, i),
    ensures
        match run_rest(s, i, acc) {
            Step::Parsed { next, .. } => i <= next <= s.len(),
            _ => true,
        },
    decreases s.len() - i,
{
    lemma_segment_ok_bounds(s, i);
    match segment(s, i) {
        Step::Parsed { v, next } => lemma_run_rest_ok_bounds(s, next, acc + v.0),
        _ => (),
    }
}

/// A successful word consumes at least one character.
pub proof fn lemma_word_ok_bounds(s: Seq<char>, i: int)
    requires
        in_bounds(s, i),
    ensures
        match word_step(s, i) {
            Step::Parsed { next, .. } => i < next <= s.len(),
            _ => true,
        },
{
    if i < s.len() {
        let c = s[i];
        if c == '$' || c == '%' {
            if i + 2 <= s.len() {
                lemma_skip_ident(s, i + 2);
            }
        } else {
            lemma_segment_ok_bounds(s, i);
            match segment(s, i) {
                Step::Parsed { v, next } => lemma_run_rest_ok_bounds(s, next, v.0),
                _ => (),
            }
        }
    }
}

/// A successful command consumes at least its name and stays within the
/// input.
pub proof fn lemma_command_ok_bounds(s: Seq<char>, i: int)
    requires
        in_bounds(s, i),
    ensures
        match command_step(s, i) {
            Step::Parsed { next, .. } => i < next <= s.len(),
            _ => true,
        },
{
    lemma_word_ok_bounds(s, i);
    match word_step(s, i) {
        Step::Parsed { v, next } => {
            lemma_args_rest_ok_bounds(s, next, Seq::empty());
        },
        _ => (),
    }
}

/// A successful argument list never moves backwards.
pub proof fn lemma_args_rest_ok_bounds(s: Seq<char>, i: int, acc: Seq<SpannedView<WordView>>)
    requires
        in_bounds(s, i),
    ensures
        match args_rest(s, i, acc) {
            Step::Parsed { next, .. } => i <= next <= s.len(),
            _ => true,
        },
    decreases s.len() - i,
{
    lemma_skip_space(s, i);
    let j = skip_space(s, i);
    if j != i && !(j < s.len() && s[j] == '#') {
        lemma_word_ok_bounds(s, j);
        match word_step(s, j) {
            Step::Parsed { v, next } => lemma_args_rest_ok_bounds(s, next, acc.push(v)),
            _ => (),
        }
    }
}

} // verus!
