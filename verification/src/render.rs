//! The canonical rendering of a literal word: single-quoted, with the
//! delimiter, the backslash and the decoded control characters written
//! as escapes. Parsing the rendering yields the original text back.

use vstd::prelude::*;

verus! {

use crate::chars::chars_to_string;
use crate::chars::str_to_chars;

/// How one character is written inside the canonical rendering.
pub open spec fn quote_char(c: char) -> Seq<char> {
    if c == '\'' {
        seq!['\\', '\'']
    } else if c == '\\' {
        seq!['\\', '\\']
    } else if c == '\n' {
        seq!['\\', 'n']
    } else if c == '\r' {
        seq!['\\', 'r']
    } else if c == '\t' {
        seq!['\\', 't']
    } else if c == '\0' {
        seq!['\\', '0']
    } else {
        seq![c]
    }
}

/// The rendered body: each character of the text in turn.
pub open spec fn quote_body(s: Seq<char>) -> Seq<char>
    decreases s.len(),
{
    if s.len() == 0 {
        Seq::empty()
    } else {
        quote_char(s[0]) + quote_body(s.drop_first())
    }
}

/// The canonical single-quoted rendering of a literal's text.
pub open spec fn quoted_text(s: Seq<char>) -> Seq<char> {
    seq!['\''] + quote_body(s) + seq!['\'']
}

/// Splitting the text splits its rendered body.
pub proof fn lemma_quote_body_concat(a: Seq<char>, b: Seq<char>)
    ensures
        quote_body(a + b) == quote_body(a) + quote_body(b),
    decreases a.len(),
{
    if a.len() == 0 {
        assert(a + b == b);
        assert(quote_body(a) + quote_body(b) == quote_body(b));
    } else {
        lemma_quote_body_concat(a.drop_first(), b);
        assert((a + b).drop_first() == a.drop_first() + b);
        assert(quote_char((a + b)[0]) + (quote_body(a.drop_first()) + quote_body(b)) == (quote_char(
            a[0],
        ) + quote_body(a.drop_first())) + quote_body(b));
    }
}

/// One character's rendered form, appended.
proof fn lemma_quote_body_step(s: Seq<char>, k: int)
    requires
        0 <= k < s.len(),
    ensures
        quote_body(s.take(k + 1)) == quote_body(s.take(k)) + quote_char(s[k]),
{
    assert(s.take(k + 1) == s.take(k) + seq![s[k]]);
    lemma_quote_body_concat(s.take(k), seq![s[k]]);
    assert(quote_body(seq![s[k]]) == quote_char(s[k]) + Seq::<char>::empty()) by {
        let single = seq![s[k]];
        assert(single.len() == 1);
        assert(single[0] == s[k]);
        assert(single.drop_first() =~= Seq::<char>::empty());
        assert(quote_body(single.drop_first()) == Seq::<char>::empty());
    }
    assert(quote_char(s[k]) + Seq::<char>::empty() =~= quote_char(s[k]));
}

/// Render a literal's text as a single-quoted word.
pub fn quote_literal(text: &str) -> (r: String)
    ensures
        r@ == quoted_text(text@),
{
    let s = str_to_chars(text);
    proof {
        crate::chars::lemma_fits_len(s@);
    }
    let mut out: Vec<char> = Vec::new();
    out.push('\'');
    assert(quote_body(s@.take(0)) =~= Seq::<char>::empty());
    assert(out@ =~= seq!['\''] + quote_body(s@.take(0)));
    let mut k: usize = 0;
    while k < s.len()
        invariant
            k <= s@.len(),
            s@.len() <= usize::MAX,
            out@ == seq!['\''] + quote_body(s@.take(k as int)),
        decreases s@.len() - k,
    {
        proof {
            lemma_quote_body_step(s@, k as int);
        }
        let c = s[k];
        if c == '\'' {
            out.push('\\');
            out.push('\'');
        } else if c == '\\' {
            out.push('\\');
            out.push('\\');
        } else if c == '\n' {
            out.push('\\');
            out.push('n');
        } else if c == '\r' {
            out.push('\\');
            out.push('r');
        } else if c == '\t' {
            out.push('\\');
            out.push('t');
        } else if c == '\0' {
            out.push('\\');
            out.push('0');
        } else {
            out.push(c);
        }
        assert(out@ =~= seq!['\''] + quote_body(s@.take(k as int + 1)));
        k = k + 1;
    }
    assert(s@.take(s@.len() as int) =~= s@);
    out.push('\'');
    assert(out@ =~= quoted_text(text@));
    chars_to_string(&out)
}

} // verus!
