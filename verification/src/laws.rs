//! The library's general guarantees, proved once over the grammar.
//!
//! Each public proof function here states a law of the parser for every
//! input its premises allow; the executable entry points are tied to the
//! same specification functions, so the laws carry over to them.

use vstd::prelude::*;

verus! {

use crate::ast::CommandView;
use crate::ast::Pipe;
use crate::ast::WordView;
use crate::chars::byte_off;
use crate::chars::is_space_char;
use crate::grammar::Step;
use crate::grammar::args_rest;
use crate::grammar::closer_at;
use crate::grammar::command_step;
use crate::grammar::esc;
use crate::grammar::find_closer;
use crate::grammar::in_bounds;
use crate::grammar::lemma_find_closer;
use crate::grammar::lemma_skip_hashes;
use crate::grammar::lemma_skip_space;
use crate::grammar::line_step;
use crate::grammar::quoted_body;
use crate::grammar::raw_body;
use crate::grammar::raw_opening;
use crate::grammar::run_rest;
use crate::grammar::segment;
use crate::grammar::skip_hashes;
use crate::grammar::skip_space;
use crate::grammar::word_result;
use crate::grammar::word_step;
use crate::render::quote_body;
use crate::render::quote_char;
use crate::render::quoted_text;

/// A run of `n` hash marks, as written around a raw or path literal.
pub open spec fn hashes(n: nat) -> Seq<char> {
    Seq::new(n, |k: int| '#')
}

/// A known suffix, shortened from the front.
proof fn lemma_skip_parts(input: Seq<char>, i: int, a: Seq<char>, m: int)
    requires
        0 <= i,
        0 <= m <= a.len(),
        input.skip(i) == a,
        i + a.len() == input.len(),
    ensures
        input.skip(i + m) =~= a.skip(m),
{
    assert forall|k: int| 0 <= k < a.skip(m).len() implies input.skip(i + m)[k] == a.skip(m)[k] by {
        assert(input.skip(i)[m + k] == a[m + k]);
    }
}

/// `skip_space` lands exactly where the whitespace run ends.
proof fn lemma_skip_space_pin(s: Seq<char>, i: int, j: int)
    requires
        0 <= i <= j <= s.len(),
        forall|k: int| i <= k < j ==> is_space_char(s[k]),
        j < s.len() ==> !is_space_char(s[j]),
    ensures
        skip_space(s, i) == j,
{
    lemma_skip_space(s, i);
}

/// `skip_hashes` lands exactly where the hash run ends.
proof fn lemma_skip_hashes_pin(s: Seq<char>, i: int, j: int)
    requires
        0 <= i <= j <= s.len(),
        forall|k: int| i <= k < j ==> s[k] == '#',
        j < s.len() ==> s[j] != '#',
    ensures
        skip_hashes(s, i) == j,
{
    lemma_skip_hashes(s, i);
}

/// `find_closer` finds exactly the closer that is known to be first.
proof fn lemma_find_closer_pin(s: Seq<char>, i: int, n: int, q: int)
    requires
        in_bounds(s, i),
        0 <= n,
        i <= q,
        closer_at(s, q, n),
        forall|k: int| i <= k < q ==> !closer_at(s, k, n),
    ensures
        find_closer(s, i, n) == Some(q),
{
    lemma_find_closer(s, i, n);
}

/// An empty or whitespace-only line parses to the empty command list
/// with no comment and no error.
pub proof fn lemma_blank_line(s: Seq<char>)
    requires
        forall|k: int| 0 <= k < s.len() ==> is_space_char(s[k]),
    ensures
        line_step(s) matches Ok(v) && v.commands =~= Seq::<(CommandView, Option<Pipe>)>::empty()
            && v.comment is None,
{
    lemma_skip_space_pin(s, 0, s.len() as int);
}

/// A parsed line holds at most one command, and the pipe slot beside it
/// is a placeholder the grammar never fills.
pub proof fn lemma_at_most_one_command(s: Seq<char>)
    ensures
        line_step(s) matches Ok(v) ==> v.commands.len() <= 1 && (forall|k: int|
            0 <= k < v.commands.len() ==> v.commands[k].1 is None),
{
}

/// The decoded content of a quoted literal whose rendered form holds no
/// escapes: the characters are taken one by one up to the closing
/// delimiter at the very end of the input.
proof fn lemma_quoted_body_plain(input: Seq<char>, i: int, d: char, t: Seq<char>, acc: Seq<char>)
    requires
        in_bounds(input, i),
        input.skip(i) == t + seq![d],
        forall|k: int| 0 <= k < t.len() ==> t[k] != d && #[trigger] t[k] != '\\',
        d != '\\',
    ensures
        quoted_body(input, i, d, acc) == (Step::Parsed::<Seq<char>> {
            v: acc + t,
            next: input.len() as int,
        }),
    decreases t.len(),
{
    assert(input.skip(i).len() == input.len() - i);
    if t.len() == 0 {
        assert(input[i] == input.skip(i)[0]);
        assert(input[i] == d);
        assert(i + 1 == input.len());
        assert(acc + t =~= acc);
    } else {
        assert(input[i] == input.skip(i)[0]);
        assert(input.skip(i)[0] == t[0]);
        lemma_skip_parts(input, i, t + seq![d], 1);
        assert((t + seq![d]).skip(1) =~= t.drop_first() + seq![d]);
        lemma_quoted_body_plain(input, i + 1, d, t.drop_first(), acc.push(t[0]));
        assert(acc.push(t[0]) + t.drop_first() =~= acc + t);
    }
}

/// A quoted literal whose text holds neither the active delimiter nor a
/// backslash parses, as a whole line, to one command whose name is
/// exactly that text, with no arguments and no comment.
pub proof fn lemma_parse_plain_quoted(d: char, s: Seq<char>)
    requires
        d == '\'' || d == '"',
        forall|k: int| 0 <= k < s.len() ==> s[k] != d && #[trigger] s[k] != '\\',
    ensures
        ({
            let input = seq![d] + s + seq![d];
            &&& line_step(input) matches Ok(v)
            &&& line_step(input)->Ok_0.comment is None
            &&& line_step(input)->Ok_0.commands.len() == 1
            &&& line_step(input)->Ok_0.commands[0].1 is None
            &&& line_step(input)->Ok_0.commands[0].0.args.len() == 0
            &&& line_step(input)->Ok_0.commands[0].0.name.inner == WordView::Literal(s)
            &&& line_step(input)->Ok_0.commands[0].0.name.start == 0
            &&& line_step(input)->Ok_0.commands[0].0.name.end == byte_off(
                input,
                input.len() as int,
            )
        }),
{
    let input = seq![d] + s + seq![d];
    assert(input.len() == s.len() + 2);
    assert(input[0] == d);
    assert(!is_space_char(d));
    lemma_skip_space_pin(input, 0, 0);
    assert(input.skip(1) =~= s + seq![d]);
    lemma_quoted_body_plain(input, 1, d, s, Seq::empty());
    assert(Seq::<char>::empty() + s =~= s);
    let n = input.len() as int;
    assert(segment(input, 0) == (Step::Parsed::<(Seq<char>, bool)> { v: (s, false), next: n }));
    assert(run_rest(input, n, s) == (Step::Parsed::<Seq<char>> { v: s, next: n }));
    assert(byte_off(input, 0) == 0) by {
        assert(input.take(0) =~= Seq::<char>::empty());
    }
    assert(word_step(input, 0) matches Step::Parsed { v: _, next: _ });
    lemma_skip_space_pin(input, n, n);
    assert(args_rest(input, n, Seq::empty()) == (Step::Parsed::<
        Seq<crate::ast::SpannedView<WordView>>,
    > { v: Seq::empty(), next: n }));
    assert(command_step(input, 0) matches Step::Parsed { v: _, next: _ });
    assert(line_step(input) is Ok);
}

/// The verbatim content of a raw or path literal: when the text holds no
/// closing delimiter, the first closer is the real one, right after the
/// text.
proof fn lemma_raw_first_closer(input: Seq<char>, c0: int, s: Seq<char>, n: int)
    requires
        0 <= n,
        0 <= c0,
        c0 + s.len() + n + 1 == input.len(),
        forall|k: int| 0 <= k < s.len() ==> input[c0 + k] == s[k],
        input[c0 + s.len()] == '"',
        forall|k: int| c0 + s.len() < k < input.len() ==> input[k] == '#',
        !(exists|p: int| 0 <= p && closer_at(s, p, n)),
    ensures
        find_closer(input, c0, n) == Some(c0 + s.len() as int),
{
    let q0 = c0 + s.len() as int;
    assert(closer_at(input, q0, n));
    assert forall|k: int| c0 <= k < q0 implies !closer_at(input, k, n) by {
        if closer_at(input, k, n) {
            let p = k - c0;
            if k + n + 1 <= q0 {
                assert(s[p] == input[k]);
                assert(forall|q: int| p < q <= p + n ==> s[q] == #[trigger] input[c0 + q]);
                assert(closer_at(s, p, n));
            } else {
                // the run of hashes would have to cover the closing quote
                assert(k + 1 <= q0 <= k + n);
                assert(input[q0] == '#');
            }
        }
    }
    lemma_find_closer_pin(input, c0, n, q0);
}

/// A raw (`r`) or path (`p`) literal whose text holds no closing
/// delimiter parses, as a whole line, to one command whose name is the
/// text verbatim, tagged by the lead character, with no arguments and no
/// comment.
pub proof fn lemma_parse_raw_literal(lead: char, n: nat, s: Seq<char>)
    requires
        lead == 'r' || lead == 'p',
        !(exists|p: int| 0 <= p && closer_at(s, p, n as int)),
    ensures
        ({
            let input = seq![lead] + hashes(n) + seq!['"'] + s + seq!['"'] + hashes(n);
            &&& line_step(input) matches Ok(v)
            &&& line_step(input)->Ok_0.comment is None
            &&& line_step(input)->Ok_0.commands.len() == 1
            &&& line_step(input)->Ok_0.commands[0].1 is None
            &&& line_step(input)->Ok_0.commands[0].0.args.len() == 0
            &&& line_step(input)->Ok_0.commands[0].0.name.inner == (if lead == 'p' {
                WordView::PathLiteral(s)
            } else {
                WordView::Literal(s)
            })
            &&& line_step(input)->Ok_0.commands[0].0.name.start == 0
            &&& line_step(input)->Ok_0.commands[0].0.name.end == byte_off(
                input,
                input.len() as int,
            )
        }),
{
    let input = seq![lead] + hashes(n) + seq!['"'] + s + seq!['"'] + hashes(n);
    let m = 1 + n as int;
    let c0 = m + 1;
    let q0 = c0 + s.len() as int;
    let len = input.len() as int;
    assert(len == s.len() + 2 * n + 3);
    assert(input[0] == lead);
    assert(forall|k: int| 1 <= k < m ==> input[k] == '#');
    assert(input[m] == '"');
    assert(forall|k: int| 0 <= k < s.len() ==> input[c0 + k] == s[k]);
    assert(input[q0] == '"');
    assert(forall|k: int| q0 < k < len ==> input[k] == '#');
    assert(!is_space_char(lead));
    lemma_skip_space_pin(input, 0, 0);
    lemma_skip_hashes_pin(input, 1, m);
    assert(raw_opening(input, 0));
    lemma_raw_first_closer(input, c0, s, n as int);
    assert(input.subrange(c0, q0) =~= s);
    assert(raw_body(input, 0) == (Step::Parsed::<Seq<char>> { v: s, next: len }));
    assert(segment(input, 0) == (Step::Parsed::<(Seq<char>, bool)> {
        v: (s, lead == 'p'),
        next: len,
    }));
    assert(run_rest(input, len, s) == (Step::Parsed::<Seq<char>> { v: s, next: len }));
    assert(byte_off(input, 0) == 0) by {
        assert(input.take(0) =~= Seq::<char>::empty());
    }
    assert(word_step(input, 0) matches Step::Parsed { v: _, next: _ });
    lemma_skip_space_pin(input, len, len);
    assert(args_rest(input, len, Seq::empty()) == (Step::Parsed::<
        Seq<crate::ast::SpannedView<WordView>>,
    > { v: Seq::empty(), next: len }));
    assert(command_step(input, 0) matches Step::Parsed { v: _, next: _ });
    assert(line_step(input) is Ok);
}

/// The decoded content of the canonical rendering: scanning the rendered
/// body undoes the escapes and ends at the closing quote.
proof fn lemma_quoted_body_rendered(input: Seq<char>, i: int, t: Seq<char>, acc: Seq<char>)
    requires
        in_bounds(input, i),
        input.skip(i) == quote_body(t) + seq!['\''],
    ensures
        quoted_body(input, i, '\'', acc) == (Step::Parsed::<Seq<char>> {
            v: acc + t,
            next: input.len() as int,
        }),
    decreases t.len(),
{
    assert(input.skip(i).len() == input.len() - i);
    if t.len() == 0 {
        assert(quote_body(t) =~= Seq::<char>::empty());
        assert(input.skip(i) =~= seq!['\'']);
        assert(input[i] == input.skip(i)[0]);
        assert(acc + t =~= acc);
    } else {
        let c = t[0];
        assert(quote_body(t) == quote_char(c) + quote_body(t.drop_first()));
        if c == '\'' || c == '\\' || c == '\n' || c == '\r' || c == '\t' || c == '\0' {
            assert(quote_char(c).len() == 2);
            assert(quote_char(c)[0] == '\\');
            assert(input[i] == input.skip(i)[0]);
            assert(input.skip(i)[0] == '\\');
            assert(input[i + 1] == input.skip(i)[1]);
            assert(input.skip(i)[1] == quote_char(c)[1]);
            assert(esc(input, i) == (Step::Parsed::<char> { v: c, next: i + 2 }));
            let rest = quote_body(t.drop_first()) + seq!['\''];
            assert(quote_body(t) + seq!['\''] =~= quote_char(c) + rest);
            lemma_skip_parts(input, i, quote_char(c) + rest, 2);
            assert((quote_char(c) + rest).skip(2) =~= rest);
            lemma_quoted_body_rendered(input, i + 2, t.drop_first(), acc.push(c));
        } else {
            assert(quote_char(c) =~= seq![c]);
            assert(input[i] == input.skip(i)[0]);
            assert(input.skip(i)[0] == c);
            let rest = quote_body(t.drop_first()) + seq!['\''];
            assert(quote_body(t) + seq!['\''] =~= quote_char(c) + rest);
            lemma_skip_parts(input, i, quote_char(c) + rest, 1);
            assert((quote_char(c) + rest).skip(1) =~= rest);
            lemma_quoted_body_rendered(input, i + 1, t.drop_first(), acc.push(c));
        }
        assert(acc.push(c) + t.drop_first() =~= acc + t);
    }
}

/// Re-parsing the canonical rendering of a literal's text yields the
/// same literal value back, spanning the whole rendering: the re-quoting
/// round trip, modulo span.
pub proof fn lemma_requote_round_trip(s: Seq<char>)
    ensures
        ({
            let input = quoted_text(s);
            &&& word_result(input) matches Ok(w)
            &&& word_result(input)->Ok_0.inner == WordView::Literal(s)
            &&& word_result(input)->Ok_0.start == 0
            &&& word_result(input)->Ok_0.end == byte_off(input, input.len() as int)
        }),
{
    let input = quoted_text(s);
    let len = input.len() as int;
    assert(input[0] == '\'');
    assert(input.skip(1) =~= quote_body(s) + seq!['\'']);
    lemma_quoted_body_rendered(input, 1, s, Seq::empty());
    assert(Seq::<char>::empty() + s =~= s);
    assert(segment(input, 0) == (Step::Parsed::<(Seq<char>, bool)> { v: (s, false), next: len }));
    assert(run_rest(input, len, s) == (Step::Parsed::<Seq<char>> { v: s, next: len }));
    assert(byte_off(input, 0) == 0) by {
        assert(input.take(0) =~= Seq::<char>::empty());
    }
    assert(word_step(input, 0) matches Step::Parsed { v: _, next: _ });
}

} // verus!
