//! The executable parser, verified against the grammar in [`crate::grammar`].
//!
//! Every function here returns exactly what the corresponding
//! specification function says, including the reason and byte offset of
//! each fatal failure.

use vstd::prelude::*;

verus! {

use crate::ast::Command;
use crate::ast::Pipe;
use crate::ast::ShellCommand;
use crate::ast::Span;
use crate::ast::Spanned;
use crate::ast::SpecialVar;
use crate::ast::Word;
use crate::chars::byte_off;
use crate::chars::byte_offset;
use crate::chars::char_from_code;
use crate::chars::char_is_space;
use crate::chars::char_is_xid_continue;
use crate::chars::char_is_xid_start;
use crate::chars::chars_to_string;
use crate::chars::fits_usize;
use crate::chars::str_to_chars;
use crate::error::Failure;
use crate::error::HexError;
use crate::error::ParseError;
use crate::error::ParseErrorKind;
use crate::error::UnicodeEscapeError;
use crate::grammar::Step;
use crate::grammar::args_rest;
use crate::grammar::closer_at;
use crate::grammar::command_step;
use crate::grammar::esc;
use crate::grammar::esc_unicode;
use crate::grammar::find_char;
use crate::grammar::find_closer;
use crate::grammar::hex_scan;
use crate::grammar::hex_value;
use crate::grammar::ident_body;
use crate::grammar::in_bounds;
use crate::grammar::is_hex_digit;
use crate::grammar::lemma_esc_ok_bounds;
use crate::grammar::lemma_find_char;
use crate::grammar::lemma_find_closer;
use crate::grammar::lemma_scan_unquoted;
use crate::grammar::lemma_segment_ok_bounds;
use crate::grammar::lemma_skip_hashes;
use crate::grammar::lemma_skip_ident;
use crate::grammar::lemma_word_ok_bounds;
use crate::grammar::line_step;
use crate::grammar::quote_end_kind;
use crate::grammar::quoted_body;
use crate::grammar::raw_body;
use crate::grammar::run_rest;
use crate::grammar::scan_unquoted;
use crate::grammar::segment;
use crate::grammar::skip_hashes;
use crate::grammar::skip_ident;
use crate::grammar::skip_space;
use crate::grammar::special_body;
use crate::grammar::word_result;
use crate::grammar::word_step;
use vstd::utf8::is_scalar;
use vstd::utf8::char_u32_cast;

/// A fatal in-flight failure with the given reason and byte offset.
pub open spec fn is_fatal_at(f: Failure, kind: ParseErrorKind, at: int) -> bool {
    &&& f.fatal
    &&& f.error.kind == kind
    &&& f.error.span as int == at
}

/// A recoverable failure; its payload is never reported.
fn backtrack() -> (f: Failure)
    ensures
        !f.fatal,
{
    Failure { fatal: false, error: ParseError { kind: ParseErrorKind::Other, span: 0 } }
}

/// A fatal failure at the given byte offset.
fn fatal_at(kind: ParseErrorKind, at: usize) -> (f: Failure)
    ensures
        is_fatal_at(f, kind, at as int),
{
    Failure { fatal: true, error: ParseError { kind, span: at } }
}

/// The characters of `s` between two positions, as their own vector.
fn copy_range(s: &Vec<char>, from: usize, to: usize) -> (out: Vec<char>)
    requires
        from <= to <= s@.len(),
    ensures
        out@ == s@.subrange(from as int, to as int),
{
    let mut out: Vec<char> = Vec::new();
    let mut k = from;
    while k < to
        invariant
            from <= k <= to <= s@.len(),
            out@ == s@.subrange(from as int, k as int),
        decreases to - k,
    {
        out.push(s[k]);
        assert(s@.subrange(from as int, k + 1 as int) == s@.subrange(from as int, k as int).push(
            s@[k as int],
        ));
        k = k + 1;
    }
    out
}

/// Zero or more whitespace characters: never fails.
pub fn space0(s: &Vec<char>, i: usize) -> (j: usize)
    requires
        in_bounds(s@, i as int),
    ensures
        j == skip_space(s@, i as int),
        i <= j <= s@.len(),
{
    let mut j = i;
    loop
        invariant
            i <= j <= s@.len(),
            skip_space(s@, i as int) == skip_space(s@, j as int),
        ensures
            j == skip_space(s@, i as int),
            i <= j <= s@.len(),
        decreases s@.len() - j,
    {
        if j >= s.len() {
            break;
        }
        if !char_is_space(s[j]) {
            break;
        }
        j = j + 1;
    }
    j
}

/// The end of the run of `#` characters starting at `i`.
fn hashes_end(s: &Vec<char>, i: usize) -> (j: usize)
    requires
        in_bounds(s@, i as int),
    ensures
        j == skip_hashes(s@, i as int),
        i <= j <= s@.len(),
{
    let mut j = i;
    loop
        invariant
            i <= j <= s@.len(),
            skip_hashes(s@, i as int) == skip_hashes(s@, j as int),
        ensures
            j == skip_hashes(s@, i as int),
            i <= j <= s@.len(),
        decreases s@.len() - j,
    {
        if j >= s.len() {
            break;
        }
        if s[j] != '#' {
            break;
        }
        j = j + 1;
    }
    j
}

/// Whether `c` is a hexadecimal digit, with its value.
fn hex_digit(c: char) -> (r: Option<u32>)
    ensures
        is_hex_digit(c) ==> (r matches Some(v) && v as int == crate::grammar::hex_digit_val(c)),
        !is_hex_digit(c) ==> r is None,
{
    let u = c as u32;
    if 0x30 <= u && u <= 0x39 {
        Some(u - 0x30)
    } else if 0x61 <= u && u <= 0x66 {
        Some(u - 0x61 + 10)
    } else if 0x41 <= u && u <= 0x46 {
        Some(u - 0x41 + 10)
    } else {
        None
    }
}

/// The code point named by the hexadecimal digits between `i` and the
/// first closing brace, decoded and checked, as `unicode_number` inside a
/// `\u{...}` escape. The returned position is that of the closing brace.
fn unicode_number(s: &Vec<char>, i: usize) -> (r: Result<(char, usize), Failure>)
    requires
        fits_usize(s@),
        in_bounds(s@, i as int),
    ensures
        match find_char(s@, i as int, '}') {
            None => r matches Err(f) && is_fatal_at(
                f,
                ParseErrorKind::InvalidUnicodeEscape(UnicodeEscapeError::NoEndBrace),
                byte_off(s@, i as int),
            ),
            Some(e) => match hex_value(s@.subrange(i as int, e)) {
                Err(he) => r matches Err(f) && is_fatal_at(
                    f,
                    ParseErrorKind::ParseHexError(he),
                    byte_off(s@, i as int),
                ),
                Ok(v) => if is_scalar(v as u32) {
                    r matches Ok(p) && p.0 == (v as u32) as char && p.1 as int == e
                } else {
                    r matches Err(f) && is_fatal_at(
                        f,
                        ParseErrorKind::InvalidUnicodeEscape(UnicodeEscapeError::InvalidUnicode),
                        byte_off(s@, i as int),
                    )
                },
            },
        },
{
    proof {
        lemma_find_char(s@, i as int, '}');
    }
    // find the closing brace
    let mut e = i;
    loop
        invariant
            i <= e <= s@.len(),
            find_char(s@, i as int, '}') == find_char(s@, e as int, '}'),
        ensures
            i <= e <= s@.len(),
            find_char(s@, i as int, '}') == find_char(s@, e as int, '}'),
            e < s@.len() ==> s@[e as int] == '}' && find_char(s@, i as int, '}') == Some(e as int),
            e == s@.len() ==> find_char(s@, i as int, '}') is None,
        decreases s@.len() - e,
    {
        if e >= s.len() {
            break;
        }
        if s[e] == '}' {
            break;
        }
        e = e + 1;
    }
    if e >= s.len() {
        return Err(
            fatal_at(
                ParseErrorKind::InvalidUnicodeEscape(UnicodeEscapeError::NoEndBrace),
                byte_offset(s, i),
            ),
        );
    }
    let ghost ds = s@.subrange(i as int, e as int);
    if e == i {
        assert(hex_value(ds) == Err::<int, HexError>(HexError::Empty));
        return Err(fatal_at(ParseErrorKind::ParseHexError(HexError::Empty), byte_offset(s, i)));
    }
    // accumulate the digits left to right
    let mut acc: u32 = 0;
    let mut k = i;
    loop
        invariant
            i < e,
            i <= k <= e < s@.len(),
            fits_usize(s@),
            find_char(s@, i as int, '}') == Some(e as int),
            ds == s@.subrange(i as int, e as int),
            hex_scan(ds, 0) == hex_scan(s@.subrange(k as int, e as int), acc as int),
        ensures
            k == e,
            hex_scan(ds, 0) == Ok::<int, HexError>(acc as int),
        decreases e - k,
    {
        if k >= e {
            assert(s@.subrange(k as int, e as int) =~= Seq::<char>::empty());
            break;
        }
        let ghost tail = s@.subrange(k as int, e as int);
        assert(tail[0] == s@[k as int]);
        assert(tail.drop_first() =~= s@.subrange(k + 1 as int, e as int));
        match hex_digit(s[k]) {
            None => {
                return Err(
                    fatal_at(
                        ParseErrorKind::ParseHexError(HexError::InvalidDigit),
                        byte_offset(s, i),
                    ),
                );
            },
            Some(d) => {
                let wide: u64 = (acc as u64) * 16 + (d as u64);
                if wide > 0xFFFFFFFF {
                    return Err(
                        fatal_at(
                            ParseErrorKind::ParseHexError(HexError::Overflow),
                            byte_offset(s, i),
                        ),
                    );
                }
                acc = wide as u32;
                k = k + 1;
            },
        }
    }
    // the value must be a Unicode scalar
    if acc < 0xD800 || (0xE000 <= acc && acc <= 0x10FFFF) {
        let c = char_from_code(acc);
        proof {
            char_u32_cast(c, acc);
        }
        Ok((c, e))
    } else {
        assert(!is_scalar(acc));
        Err(
            fatal_at(
                ParseErrorKind::InvalidUnicodeEscape(UnicodeEscapeError::InvalidUnicode),
                byte_offset(s, i),
            ),
        )
    }
}

/// A `\u{...}` escape, entered at the `u`.
fn unicode_escape_char(s: &Vec<char>, i: usize) -> (r: Result<(char, usize), Failure>)
    requires
        fits_usize(s@),
        i < s@.len(),
    ensures
        match esc_unicode(s@, i as int) {
            Step::Parsed { v, next } => r matches Ok(p) && p.0 == v && p.1 as int == next,
            Step::Back => r matches Err(f) && !f.fatal,
            Step::Fatal { kind, at } => r matches Err(f) && is_fatal_at(f, kind, at),
        },
{
    proof {
        crate::chars::lemma_fits_len(s@);
    }
    if i + 1 >= s.len() || s[i + 1] != '{' {
        return Err(
            fatal_at(
                ParseErrorKind::InvalidUnicodeEscape(UnicodeEscapeError::NoBeginBrace),
                byte_offset(s, i + 1),
            ),
        );
    }
    match unicode_number(s, i + 2) {
        Err(f) => Err(f),
        Ok((c, e)) => {
            proof {
                lemma_find_char(s@, i + 2 as int, '}');
            }
            Ok((c, e + 1))
        },
    }
}

/// One escape sequence, entered at the backslash.
fn escape_char(s: &Vec<char>, i: usize) -> (r: Result<(char, usize), Failure>)
    requires
        fits_usize(s@),
        i < s@.len(),
        s@[i as int] == '\\',
    ensures
        match esc(s@, i as int) {
            Step::Parsed { v, next } => r matches Ok(p) && p.0 == v && p.1 as int == next,
            Step::Back => r matches Err(f) && !f.fatal,
            Step::Fatal { kind, at } => r matches Err(f) && is_fatal_at(f, kind, at),
        },
{
    proof {
        crate::chars::lemma_fits_len(s@);
    }
    if i + 1 >= s.len() {
        return Err(backtrack());
    }
    let c = s[i + 1];
    if c == 'n' {
        Ok(('\n', i + 2))
    } else if c == 'r' {
        Ok(('\r', i + 2))
    } else if c == 't' {
        Ok(('\t', i + 2))
    } else if c == '\\' {
        Ok(('\\', i + 2))
    } else if c == '"' {
        Ok(('"', i + 2))
    } else if c == '\'' {
        Ok(('\'', i + 2))
    } else if c == '0' {
        Ok(('\0', i + 2))
    } else if c == 'u' {
        unicode_escape_char(s, i + 1)
    } else {
        Err(fatal_at(ParseErrorKind::UnrecognizedEscape(c), byte_offset(s, i + 1)))
    }
}

/// An identifier entered at its first character, after the `$` or `%`
/// sigil: its text and end position. Every failure is fatal.
fn ident(s: &Vec<char>, i: usize) -> (r: Result<(String, usize), Failure>)
    requires
        fits_usize(s@),
        in_bounds(s@, i as int),
    ensures
        match ident_body(s@, i as int) {
            Step::Parsed { v, next } => r matches Ok(p) && p.0@ == v && p.1 as int == next,
            Step::Back => r matches Err(f) && !f.fatal,
            Step::Fatal { kind, at } => r matches Err(f) && is_fatal_at(f, kind, at),
        },
{
    proof {
        crate::chars::lemma_fits_len(s@);
    }
    if i >= s.len() {
        return Err(fatal_at(ParseErrorKind::NoIdent, byte_offset(s, i)));
    }
    let c = s[i];
    if !(c == '_' || char_is_xid_start(c)) {
        return Err(fatal_at(ParseErrorKind::NoIdent, byte_offset(s, i)));
    }
    let mut j = i + 1;
    loop
        invariant
            i as int + 1 <= j as int <= s@.len(),
            skip_ident(s@, i as int + 1) == skip_ident(s@, j as int),
        ensures
            j as int == skip_ident(s@, i as int + 1),
            i < j <= s@.len(),
        decreases s@.len() - j,
    {
        if j >= s.len() {
            break;
        }
        if !char_is_xid_continue(s[j]) {
            break;
        }
        j = j + 1;
    }
    if c == '_' && j == i + 1 {
        return Err(fatal_at(ParseErrorKind::InvalidIdent, byte_offset(s, i)));
    }
    let text = copy_range(s, i, j);
    Ok((chars_to_string(&text), j))
}

/// The four special variable forms, entered just after the `$`.
fn special_var(s: &Vec<char>, i: usize) -> (r: Result<(SpecialVar, usize), Failure>)
    requires
        in_bounds(s@, i as int),
    ensures
        match special_body(s@, i as int) {
            Step::Parsed { v, next } => r matches Ok(p) && p.0 == v && p.1 as int == next,
            Step::Back => r matches Err(f) && !f.fatal,
            Step::Fatal { kind, at } => true,
        },
{
    if i < s.len() {
        let c = s[i];
        if c == '?' {
            return Ok((SpecialVar::ExitStatus, i + 1));
        }
        if c == '$' {
            return Ok((SpecialVar::Pid, i + 1));
        }
        if c == '!' {
            return Ok((SpecialVar::BackgroundPid, i + 1));
        }
        if c == '@' {
            return Ok((SpecialVar::ShellName, i + 1));
        }
    }
    Err(backtrack())
}

/// The decoded content of a quoted literal; `i` is just after the
/// opening delimiter `d`, and the returned position is just after the
/// closing one.
fn quoted_content(s: &Vec<char>, i: usize, d: char) -> (r: Result<(Vec<char>, usize), Failure>)
    requires
        fits_usize(s@),
        in_bounds(s@, i as int),
    ensures
        match quoted_body(s@, i as int, d, Seq::empty()) {
            Step::Parsed { v, next } => r matches Ok(p) && p.0@ == v && p.1 as int == next,
            Step::Back => r matches Err(f) && !f.fatal,
            Step::Fatal { kind, at } => r matches Err(f) && is_fatal_at(f, kind, at),
        },
{
    let mut acc: Vec<char> = Vec::new();
    let mut j = i;
    loop
        invariant
            fits_usize(s@),
            i <= j <= s@.len(),
            quoted_body(s@, i as int, d, Seq::empty()) == quoted_body(s@, j as int, d, acc@),
        decreases s@.len() - j,
    {
        if j >= s.len() {
            let kind = if d == '\'' {
                ParseErrorKind::NoEndQuotation
            } else {
                ParseErrorKind::NoEndDoubleQuotation
            };
            assert(kind == quote_end_kind(d));
            return Err(fatal_at(kind, byte_offset(s, j)));
        }
        let c = s[j];
        if c == d {
            return Ok((acc, j + 1));
        }
        if c == '\\' {
            proof {
                lemma_esc_ok_bounds(s@, j as int);
            }
            match escape_char(s, j) {
                Ok(p) => {
                    acc.push(p.0);
                    j = p.1;
                },
                Err(f) => {
                    if f.fatal {
                        return Err(f);
                    }
                    acc.push('\\');
                    j = j + 1;
                },
            }
        } else {
            acc.push(c);
            j = j + 1;
        }
    }
}

/// A single-quoted literal, entered at the opening `'`.
fn quoted_string(s: &Vec<char>, i: usize) -> (r: Result<(Vec<char>, usize), Failure>)
    requires
        fits_usize(s@),
        i < s@.len(),
    ensures
        match quoted_body(s@, i as int + 1, '\'', Seq::empty()) {
            Step::Parsed { v, next } => r matches Ok(p) && p.0@ == v && p.1 as int == next,
            Step::Back => r matches Err(f) && !f.fatal,
            Step::Fatal { kind, at } => r matches Err(f) && is_fatal_at(f, kind, at),
        },
{
    proof {
        crate::chars::lemma_fits_len(s@);
    }
    quoted_content(s, i + 1, '\'')
}

/// A double-quoted literal, entered at the opening `"`.
fn double_quoted_string(s: &Vec<char>, i: usize) -> (r: Result<(Vec<char>, usize), Failure>)
    requires
        fits_usize(s@),
        i < s@.len(),
    ensures
        match quoted_body(s@, i as int + 1, '"', Seq::empty()) {
            Step::Parsed { v, next } => r matches Ok(p) && p.0@ == v && p.1 as int == next,
            Step::Back => r matches Err(f) && !f.fatal,
            Step::Fatal { kind, at } => r matches Err(f) && is_fatal_at(f, kind, at),
        },
{
    proof {
        crate::chars::lemma_fits_len(s@);
    }
    quoted_content(s, i + 1, '"')
}

/// The verbatim body of a raw or path literal, entered at the `r` or `p`;
/// the same delimiter rule serves both forms, and the caller applies the
/// tag.
fn raw_string(s: &Vec<char>, i: usize) -> (r: Result<(Vec<char>, usize), Failure>)
    requires
        fits_usize(s@),
        i < s@.len(),
    ensures
        match raw_body(s@, i as int) {
            Step::Parsed { v, next } => r matches Ok(p) && p.0@ == v && p.1 as int == next,
            Step::Back => r matches Err(f) && !f.fatal,
            Step::Fatal { kind, at } => r matches Err(f) && is_fatal_at(f, kind, at),
        },
{
    proof {
        crate::chars::lemma_fits_len(s@);
    }
    let m = hashes_end(s, i + 1);
    let n = m - (i + 1);
    if m >= s.len() {
        return Err(backtrack());
    }
    if s[m] != '"' {
        return Err(backtrack());
    }
    let c0 = m + 1;
    proof {
        lemma_find_closer(s@, c0 as int, n as int);
    }
    let mut q = c0;
    loop
        invariant
            fits_usize(s@),
            i as int + 1 <= m as int,
            (m as int) < s@.len(),
            c0 == m + 1,
            n == m - (i + 1),
            m as int == skip_hashes(s@, i as int + 1),
            s@[m as int] == '"',
            c0 <= q <= s@.len(),
            find_closer(s@, c0 as int, n as int) == find_closer(s@, q as int, n as int),
        decreases s@.len() - q,
    {
        if q >= s.len() {
            return Err(fatal_at(ParseErrorKind::Other, byte_offset(s, c0)));
        }
        let cq = s[q];
        if cq == '"' {
            let he = hashes_end(s, q + 1);
            proof {
                lemma_skip_hashes(s@, q as int + 1);
            }
            if he - (q + 1) >= n {
                assert(closer_at(s@, q as int, n as int));
                let content = copy_range(s, c0, q);
                return Ok((content, q + n + 1));
            }
            assert(!closer_at(s@, q as int, n as int)) by {
                if q as int + n as int + 1 <= s@.len() {
                    assert(s@[he as int] != '#');
                }
            }
        } else {
            assert(!closer_at(s@, q as int, n as int));
        }
        q = q + 1;
    }
}

/// An unquoted run: at least one character up to whitespace or a stop
/// character.
fn unquoted_string(s: &Vec<char>, i: usize) -> (r: Result<(Vec<char>, usize), Failure>)
    requires
        in_bounds(s@, i as int),
    ensures
        ({
            let j = scan_unquoted(s@, i as int);
            if j == i as int {
                r matches Err(f) && !f.fatal
            } else {
                r matches Ok(p) && p.0@ == s@.subrange(i as int, j) && p.1 as int == j
            }
        }),
{
    let mut j = i;
    loop
        invariant
            i <= j <= s@.len(),
            scan_unquoted(s@, i as int) == scan_unquoted(s@, j as int),
        ensures
            j as int == scan_unquoted(s@, i as int),
            i <= j <= s@.len(),
        decreases s@.len() - j,
    {
        if j >= s.len() {
            break;
        }
        let c = s[j];
        if char_is_space(c) {
            break;
        }
        if c == '(' || c == ')' || c == '{' || c == '}' || c == '|' || c == '<' || c == '>' || c
            == ';' || c == '&' {
            break;
        }
        j = j + 1;
    }
    if j == i {
        Err(backtrack())
    } else {
        Ok((copy_range(s, i, j), j))
    }
}

/// One literal segment at `i`: its decoded text, whether it is a path
/// form, and the position after it.
fn segment_at(s: &Vec<char>, i: usize) -> (r: Result<(Vec<char>, bool, usize), Failure>)
    requires
        fits_usize(s@),
        in_bounds(s@, i as int),
    ensures
        match segment(s@, i as int) {
            Step::Parsed { v, next } => r matches Ok(p) && p.0@ == v.0 && p.1 == v.1 && p.2 as int
                == next,
            Step::Back => r matches Err(f) && !f.fatal,
            Step::Fatal { kind, at } => r matches Err(f) && is_fatal_at(f, kind, at),
        },
{
    proof {
        crate::chars::lemma_fits_len(s@);
    }
    if i >= s.len() {
        return Err(backtrack());
    }
    let c = s[i];
    if c == '\'' {
        match quoted_string(s, i) {
            Ok(p) => Ok((p.0, false, p.1)),
            Err(f) => Err(f),
        }
    } else if c == '"' {
        match double_quoted_string(s, i) {
            Ok(p) => Ok((p.0, false, p.1)),
            Err(f) => Err(f),
        }
    } else {
        if c == 'r' || c == 'p' {
            let m = hashes_end(s, i + 1);
            if m < s.len() && s[m] == '"' {
                return match raw_string(s, i) {
                    Ok(p) => Ok((p.0, c == 'p', p.1)),
                    Err(f) => Err(f),
                };
            }
        }
        proof {
            lemma_scan_unquoted(s@, i as int);
        }
        match unquoted_string(s, i) {
            Ok(p) => Ok((p.0, false, p.1)),
            Err(f) => Err(f),
        }
    }
}

/// One word at `i`: variable dispatch on a leading `$` or `%`, otherwise
/// a run of adjacent literal segments whose first segment fixes the tag.
fn word(s: &Vec<char>, i: usize) -> (r: Result<(Spanned<Word>, usize), Failure>)
    requires
        fits_usize(s@),
        in_bounds(s@, i as int),
    ensures
        match word_step(s@, i as int) {
            Step::Parsed { v, next } => r matches Ok(p) && p.0@ == v && p.1 as int == next,
            Step::Back => r matches Err(f) && !f.fatal,
            Step::Fatal { kind, at } => r matches Err(f) && is_fatal_at(f, kind, at),
        },
{
    proof {
        crate::chars::lemma_fits_len(s@);
    }
    if i >= s.len() {
        return Err(backtrack());
    }
    let c = s[i];
    if c == '$' {
        match special_var(s, i + 1) {
            Ok(p) => {
                let start = byte_offset(s, i);
                let end = byte_offset(s, p.1);
                return Ok(
                    (Spanned { inner: Word::SpecialVar(p.0), span: Span { start, end } }, p.1),
                );
            },
            Err(_) => {},
        }
        match ident(s, i + 1) {
            Ok(p) => {
                proof {
                    if i as int + 2 <= s@.len() {
                        lemma_skip_ident(s@, i as int + 2);
                    }
                }
                let start = byte_offset(s, i);
                let end = byte_offset(s, p.1);
                return Ok((Spanned { inner: Word::EnvVar(p.0), span: Span { start, end } }, p.1));
            },
            Err(f) => {
                return Err(f);
            },
        }
    }
    if c == '%' {
        match ident(s, i + 1) {
            Ok(p) => {
                proof {
                    if i as int + 2 <= s@.len() {
                        lemma_skip_ident(s@, i as int + 2);
                    }
                }
                let start = byte_offset(s, i);
                let end = byte_offset(s, p.1);
                return Ok((Spanned { inner: Word::ShellVar(p.0), span: Span { start, end } }, p.1));
            },
            Err(f) => {
                return Err(f);
            },
        }
    }
    let (mut acc, is_path, mut j) = match segment_at(s, i) {
        Ok((t, b, n)) => (t, b, n),
        Err(f) => {
            return Err(f);
        },
    };
    proof {
        lemma_segment_ok_bounds(s@, i as int);
    }
    let ghost j0 = j as int;
    let ghost t0 = acc@;
    loop
        invariant
            fits_usize(s@),
            in_bounds(s@, j as int),
            0 <= i as int,
            (i as int) < s@.len(),
            s@[i as int] != '$',
            s@[i as int] != '%',
            segment(s@, i as int) == (Step::Parsed { v: (t0, is_path), next: j0 }),
            (i as int) < j0,
            j0 <= (j as int),
            run_rest(s@, j0, t0) == run_rest(s@, j as int, acc@),
        ensures
            in_bounds(s@, j as int),
            (i as int) < (j as int),
            run_rest(s@, j0, t0) == (Step::Parsed { v: acc@, next: j as int }),
        decreases s@.len() - j,
    {
        proof {
            lemma_segment_ok_bounds(s@, j as int);
        }
        match segment_at(s, j) {
            Err(f) => {
                if f.fatal {
                    return Err(f);
                }
                break;
            },
            Ok((mut t, _, j2)) => {
                acc.append(&mut t);
                j = j2;
            },
        }
    }
    let start = byte_offset(s, i);
    let end = byte_offset(s, j);
    let text = chars_to_string(&acc);
    let w = if is_path {
        Word::PathLiteral(text)
    } else {
        Word::Literal(text)
    };
    Ok((Spanned { inner: w, span: Span { start, end } }, j))
}

/// One command at `i`: a name word, then arguments each preceded by
/// whitespace, stopping before a `#` comment.
pub fn command(s: &Vec<char>, i: usize) -> (r: Result<(Command, usize), Failure>)
    requires
        fits_usize(s@),
        in_bounds(s@, i as int),
    ensures
        match command_step(s@, i as int) {
            Step::Parsed { v, next } => r matches Ok(p) && p.0@ == v && p.1 as int == next,
            Step::Back => r matches Err(f) && !f.fatal,
            Step::Fatal { kind, at } => r matches Err(f) && is_fatal_at(f, kind, at),
        },
{
    let (name, j_init) = match word(s, i) {
        Ok((w, n)) => (w, n),
        Err(f) => {
            return Err(f);
        },
    };
    proof {
        lemma_word_ok_bounds(s@, i as int);
    }
    let mut args: Vec<Spanned<Word>> = Vec::new();
    let mut j = j_init;
    let ghost j0 = j as int;
    assert(args@.map(|k: int, a: Spanned<Word>| a@) =~= Seq::<
        crate::ast::SpannedView<crate::ast::WordView>,
    >::empty());
    loop
        invariant
            fits_usize(s@),
            in_bounds(s@, j as int),
            in_bounds(s@, i as int),
            word_step(s@, i as int) == (Step::Parsed { v: name@, next: j0 }),
            j0 <= j as int,
            args_rest(s@, j0, Seq::empty()) == args_rest(
                s@,
                j as int,
                args@.map(|k: int, a: Spanned<Word>| a@),
            ),
        ensures
            in_bounds(s@, j as int),
            args_rest(s@, j0, Seq::empty()) == (Step::Parsed {
                v: args@.map(|k: int, a: Spanned<Word>| a@),
                next: j as int,
            }),
        decreases s@.len() - j,
    {
        let j2 = space0(s, j);
        if j2 == j {
            break;
        }
        if j2 < s.len() && s[j2] == '#' {
            break;
        }
        proof {
            lemma_word_ok_bounds(s@, j2 as int);
        }
        let ghost pre = args@.map(|k: int, a: Spanned<Word>| a@);
        match word(s, j2) {
            Err(f) => {
                if f.fatal {
                    return Err(f);
                }
                break;
            },
            Ok((w, j3)) => {
                args.push(w);
                proof {
                    assert(args@.map(|k: int, a: Spanned<Word>| a@) =~= pre.push(w@));
                }
                j = j3;
            },
        }
    }
    Ok((Command { name, args }, j))
}

/// A whole line over its characters: leading whitespace, at most one
/// command, an optional comment, trailing whitespace.
fn shell_command(s: &Vec<char>) -> (r: Result<ShellCommand, ParseError>)
    requires
        fits_usize(s@),
    ensures
        match line_step(s@) {
            Ok(v) => r matches Ok(sc) && sc@ == v,
            Err((kind, at)) => r matches Err(e) && e.kind == kind && e.span as int == at,
        },
{
    let i0 = space0(s, 0);
    let mut cmds: Vec<(Command, Option<Pipe>)> = Vec::new();
    let mut pos = i0;
    assert(cmds@.map(|k: int, t: (Command, Option<Pipe>)| (t.0@, t.1)) =~= Seq::<
        (crate::ast::CommandView, Option<Pipe>),
    >::empty());
    if i0 < s.len() && s[i0] == '#' {
        // the comment parser takes over without a command
    } else {
        proof {
            crate::grammar::lemma_command_ok_bounds(s@, i0 as int);
        }
        match command(s, i0) {
            Ok((c, j)) => {
                let ghost pre = cmds@.map(|k: int, t: (Command, Option<Pipe>)| (t.0@, t.1));
                cmds.push((c, None));
                proof {
                    assert(cmds@.map(|k: int, t: (Command, Option<Pipe>)| (t.0@, t.1)) =~= pre.push(
                        (c@, None),
                    ));
                }
                pos = j;
            },
            Err(f) => {
                if f.fatal {
                    return Err(f.error);
                }
            },
        }
    }
    let j = space0(s, pos);
    if j < s.len() && s[j] == '#' {
        let ctext = copy_range(s, j + 1, s.len());
        return Ok(ShellCommand { commands: cmds, comment: Some(chars_to_string(&ctext)) });
    }
    if j == s.len() {
        return Ok(ShellCommand { commands: cmds, comment: None });
    }
    Err(ParseError { kind: ParseErrorKind::Other, span: byte_offset(s, j) })
}

/// Parse one line of input into its command and comment, or the first
/// fatal error with its byte offset. Input left over after the grammar is
/// reported as `Other` at the offset where it starts.
pub fn parse_shell_command(input: &str) -> (r: Result<ShellCommand, ParseError>)
    ensures
        match line_step(input@) {
            Ok(v) => r matches Ok(sc) && sc@ == v,
            Err((kind, at)) => r matches Err(e) && e.kind == kind && e.span as int == at,
        },
{
    let s = str_to_chars(input);
    shell_command(&s)
}

/// Parse one word that must cover the whole input: the word-level entry
/// point used by the word tests.
pub fn parse_word(input: &str) -> (r: Result<Spanned<Word>, ParseError>)
    ensures
        match word_result(input@) {
            Ok(v) => r matches Ok(w) && w@ == v,
            Err((kind, at)) => r matches Err(e) && e.kind == kind && e.span as int == at,
        },
{
    let s = str_to_chars(input);
    match word(&s, 0) {
        Ok((w, j)) => {
            if j == s.len() {
                Ok(w)
            } else {
                proof {
                    crate::grammar::lemma_word_ok_bounds(s@, 0);
                }
                Err(ParseError { kind: ParseErrorKind::Other, span: byte_offset(&s, j) })
            }
        },
        Err(f) => {
            if f.fatal {
                Err(f.error)
            } else {
                Err(ParseError { kind: ParseErrorKind::Other, span: 0 })
            }
        },
    }
}

/// Parse one word at the start of the input and report how many bytes it
/// covered, so a caller can look at what follows.
pub fn parse_word_prefix(input: &str) -> (r: Result<(Spanned<Word>, usize), ParseError>)
    ensures
        match word_step(input@, 0) {
            Step::Parsed { v, next } => r matches Ok(p) && p.0@ == v && p.1 as int == byte_off(
                input@,
                next,
            ),
            Step::Back => r matches Err(e) && e.kind == ParseErrorKind::Other && e.span == 0,
            Step::Fatal { kind, at } => r matches Err(e) && e.kind == kind && e.span as int == at,
        },
{
    let s = str_to_chars(input);
    match word(&s, 0) {
        Ok((w, j)) => {
            proof {
                crate::grammar::lemma_word_ok_bounds(s@, 0);
            }
            Ok((w, byte_offset(&s, j)))
        },
        Err(f) => {
            if f.fatal {
                Err(f.error)
            } else {
                Err(ParseError { kind: ParseErrorKind::Other, span: 0 })
            }
        },
    }
}

} // verus!
