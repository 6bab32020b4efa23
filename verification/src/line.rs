//! The classification of a single line, as a mathematical function of the
//! line's characters and of one fact about the token emitted before it.

use vstd::prelude::*;
use crate::token::{TokenType, TokenView};
use crate::whitespace::{over_indented, trimmed_start};

verus! {

/// How often `c` occurs in `s`.
pub open spec fn occurrences(s: Seq<char>, c: char) -> nat
    decreases s.len(),
{
    if s.len() == 0 {
        0
    } else {
        occurrences(s.drop_last(), c) + if s.last() == c { 1nat } else { 0nat }
    }
}

/// The characters that open a line whose kind the first character alone does
/// not settle.
pub open spec fn is_ambiguous_lead(c: char) -> bool {
    c == '-' || c == '=' || c == '_' || c == '*' || c == '+'
}

/// The length counted for a run led by `-` or `=`: one for the lead, and one
/// for each `-` after it. Later `=` are not counted.
pub open spec fn run_length(text: Seq<char>) -> nat
    recommends
        text.len() > 0,
{
    1 + occurrences(text.drop_first(), '-')
}

/// The kind of a line led by `#`: a header whose level is the number of `#`
/// anywhere in the line, as long as that is at most six.
pub open spec fn header_kind(text: Seq<char>) -> TokenType {
    let level = occurrences(text, '#');
    if level <= 6 {
        TokenType::Header(level as u32)
    } else {
        TokenType::Paragraph
    }
}

/// The kind of a line led by `-` or `=`. Under a paragraph it is a setext
/// heading, whatever its length. Elsewhere a run of three or more is a
/// thematic break, and a shorter one stays undetermined.
pub open spec fn rule_kind(text: Seq<char>, after_paragraph: bool) -> TokenType
    recommends
        text.len() > 0,
{
    if after_paragraph {
        TokenType::SetextHeading
    } else if run_length(text) >= 3 {
        TokenType::ThematicBreak
    } else {
        TokenType::Undetermined(text[0], run_length(text) as u8)
    }
}

/// The kind of a line, given its text without leading whitespace, which is
/// not empty. A line led by `_`, `*` or `+` has no rule that resolves it and
/// stays undetermined with a count of one.
pub open spec fn line_kind(text: Seq<char>, after_paragraph: bool) -> TokenType
    recommends
        text.len() > 0,
{
    let lead = text[0];
    if lead == '#' {
        header_kind(text)
    } else if lead == '-' || lead == '=' {
        rule_kind(text, after_paragraph)
    } else if is_ambiguous_lead(lead) {
        TokenType::Undetermined(lead, 1)
    } else {
        TokenType::Paragraph
    }
}

/// The token that a line contributes, if any. `after_paragraph` says whether
/// the token emitted last is a paragraph.
///
/// An over-indented line contributes nothing. A line of whitespace only is a
/// blank line without text. Any other line keeps its text from the first
/// character that is not whitespace, and is open exactly when its kind is
/// undetermined.
pub open spec fn line_token(line: Seq<char>, after_paragraph: bool) -> Option<TokenView> {
    let text = trimmed_start(line);
    if over_indented(line) {
        None
    } else if text.len() == 0 {
        Some(TokenView { token_type: TokenType::BlankLine, text: Seq::empty(), open: false })
    } else {
        let kind = line_kind(text, after_paragraph);
        Some(TokenView { token_type: kind, text: text, open: kind is Undetermined })
    }
}

/// A prefix holds no more occurrences than the whole.
pub proof fn lemma_occurrences_prefix(s: Seq<char>, c: char, k: int)
    requires
        0 <= k <= s.len(),
    ensures
        occurrences(s.take(k), c) <= occurrences(s, c),
    decreases s.len(),
{
    if k < s.len() {
        lemma_occurrences_prefix(s.drop_last(), c, k);
        assert(s.drop_last().take(k) == s.take(k));
    } else {
        assert(s.take(k) == s);
    }
}

/// Counting from the front: the first character, then the rest.
pub proof fn lemma_occurrences_drop_first(s: Seq<char>, c: char)
    requires
        s.len() > 0,
    ensures
        occurrences(s, c) == occurrences(s.drop_first(), c) + if s[0] == c { 1nat } else { 0nat },
    decreases s.len(),
{
    let rest = s.drop_first();
    if s.len() == 1 {
        assert(occurrences(s.drop_last(), c) == 0);
        assert(occurrences(rest, c) == 0);
        assert(s.last() == s[0]);
    } else {
        lemma_occurrences_drop_first(s.drop_last(), c);
        assert(s.drop_last().drop_first() == rest.drop_last());
        assert(rest.last() == s.last());
        assert(s.drop_last()[0] == s[0]);
    }
}

/// Counting over a concatenation: the two parts add up.
pub proof fn lemma_occurrences_concat(a: Seq<char>, b: Seq<char>, c: char)
    ensures
        occurrences(a + b, c) == occurrences(a, c) + occurrences(b, c),
    decreases b.len(),
{
    if b.len() == 0 {
        assert(a + b == a);
    } else {
        lemma_occurrences_concat(a, b.drop_last(), c);
        assert((a + b).drop_last() == a + b.drop_last());
        assert((a + b).last() == b.last());
    }
}

/// A character occurs zero times exactly where the sequence does not hold it.
pub proof fn lemma_occurrences_none(s: Seq<char>, c: char)
    ensures
        occurrences(s, c) == 0 <==> !s.contains(c),
    decreases s.len(),
{
    if s.len() > 0 {
        let front = s.drop_last();
        lemma_occurrences_none(front, c);
        if s.contains(c) {
            let i = choose|i: int| 0 <= i < s.len() && s[i] == c;
            if i < s.len() - 1 {
                assert(front[i] == c);
            }
        }
        if front.contains(c) {
            let i = choose|i: int| 0 <= i < front.len() && front[i] == c;
            assert(s[i] == c);
        }
        if s.last() == c {
            assert(s[s.len() - 1] == c);
        }
    }
}

/// `n` times the character `c`.
pub open spec fn run_of(c: char, n: nat) -> Seq<char> {
    Seq::new(n, |i: int| c)
}

/// A run of `n` times `c` holds `c` `n` times, and any other character not
/// at all.
pub proof fn lemma_occurrences_run(c: char, n: nat, d: char)
    ensures
        occurrences(run_of(c, n), d) == if d == c { n } else { 0 },
    decreases n,
{
    if n > 0 {
        lemma_occurrences_run(c, (n - 1) as nat, d);
        assert(run_of(c, n).drop_last() == run_of(c, (n - 1) as nat));
    }
}

} // verus!
