//! What holds of the tokenizer on every input, proved from the definitions
//! that its functions are specified by.

use vstd::prelude::*;
use crate::line::{
    lemma_occurrences_concat, lemma_occurrences_drop_first, lemma_occurrences_none,
    lemma_occurrences_run, line_token, run_length, run_of,
};
use crate::token::{TokenType, TokenView};
use crate::tokenizer::{ends_in_paragraph, tokens_after, Tokenizer};
use crate::whitespace::{
    is_white_space, leading_whitespace, lemma_indent_then_content,
    lemma_leading_whitespace_at_least, lemma_leading_whitespace_bound,
    lemma_leading_whitespace_unique, lemma_tab_in_leading_whitespace, over_indented,
    trimmed_start,
};

verus! {

/// A pass is a function of what the tokenizer holds: two tokenizers with the
/// same lines and the same tokens are left with the same tokens, text
/// included.
pub proof fn law_pass_is_deterministic(first: Tokenizer, second: Tokenizer)
    requires
        first.lines.deep_view() == second.lines.deep_view(),
        first.tokens.deep_view() == second.tokens.deep_view(),
    ensures
        first.outcome() == second.outcome(),
{
}

/// A pass keeps the tokens that were there, in their places, and adds at
/// most one token for each line.
pub proof fn law_pass_extends(emitted: Seq<TokenView>, lines: Seq<Seq<char>>)
    ensures
        emitted.len() <= tokens_after(emitted, lines).len() <= emitted.len() + lines.len(),
        tokens_after(emitted, lines).take(emitted.len() as int) == emitted,
    decreases lines.len(),
{
    if lines.len() > 0 {
        law_pass_extends(emitted, lines.drop_last());
        let before = tokens_after(emitted, lines.drop_last());
        let after = tokens_after(emitted, lines);
        assert(after.take(emitted.len() as int) == before.take(emitted.len() as int));
    } else {
        assert(emitted.take(emitted.len() as int) == emitted);
    }
}

/// Whether a line is one that no rule resolves: it is not over-indented, and
/// its text is led by `_`, `*` or `+`, or is led by `-` or `=`, does not
/// follow a paragraph and counts fewer than three.
pub open spec fn leaves_ambiguity(line: Seq<char>, after_paragraph: bool) -> bool {
    let text = trimmed_start(line);
    &&& !over_indented(line)
    &&& text.len() > 0
    &&& {
        ||| text[0] == '_' || text[0] == '*' || text[0] == '+'
        ||| (text[0] == '-' || text[0] == '=') && !after_paragraph && run_length(text) < 3
    }
}

/// The token of a line is undetermined exactly where the line leaves
/// ambiguity, and it is open exactly where it is undetermined. Every other
/// token is settled.
pub proof fn law_line_ambiguity(line: Seq<char>, after_paragraph: bool)
    ensures
        match line_token(line, after_paragraph) {
            Some(token) => {
                &&& token.token_type is Undetermined <==> leaves_ambiguity(line, after_paragraph)
                &&& token.open <==> leaves_ambiguity(line, after_paragraph)
                &&& token.is_settled() <==> !leaves_ambiguity(line, after_paragraph)
            },
            None => !leaves_ambiguity(line, after_paragraph),
        },
{
}

/// The token of a line is a line token: a header's level lies between 1 and
/// 6, the token is open exactly when it is undetermined, and its text is the
/// line without its leading whitespace.
pub proof fn law_line_token_shape(line: Seq<char>, after_paragraph: bool)
    ensures
        line_token(line, after_paragraph) matches Some(token) ==> {
            &&& token.is_line_token()
            &&& token.text == trimmed_start(line)
        },
{
    if line_token(line, after_paragraph) is Some {
        let text = trimmed_start(line);
        let width = leading_whitespace(line) as int;
        lemma_leading_whitespace_bound(line);
        lemma_leading_whitespace_unique(line, width);
        if text.len() > 0 {
            assert(text[0] == line[width]);
            lemma_occurrences_drop_first(text, '#');
        } else {
            assert(text == Seq::<char>::empty());
        }
    }
}

/// Every token that a pass adds is a line token.
pub proof fn law_pass_token_shape(emitted: Seq<TokenView>, lines: Seq<Seq<char>>)
    ensures
        forall|j: int|
            emitted.len() <= j < tokens_after(emitted, lines).len() ==> (
            #[trigger] tokens_after(emitted, lines)[j]).is_line_token(),
    decreases lines.len(),
{
    if lines.len() > 0 {
        let before = tokens_after(emitted, lines.drop_last());
        law_pass_token_shape(emitted, lines.drop_last());
        law_pass_extends(emitted, lines.drop_last());
        law_line_token_shape(lines.last(), ends_in_paragraph(before));
    }
}

/// Reading the lines in two parts, one after the other, leaves the tokens
/// that reading them at once leaves.
pub proof fn law_pass_in_parts(
    emitted: Seq<TokenView>,
    first: Seq<Seq<char>>,
    second: Seq<Seq<char>>,
)
    ensures
        tokens_after(emitted, first + second) == tokens_after(
            tokens_after(emitted, first),
            second,
        ),
    decreases second.len(),
{
    if second.len() == 0 {
        assert(first + second == first);
    } else {
        law_pass_in_parts(emitted, first, second.drop_last());
        assert((first + second).drop_last() == first + second.drop_last());
        assert((first + second).last() == second.last());
    }
}

/// Whether the token emitted last is a paragraph at the moment at which a
/// pass that starts from `emitted` reads line `i` of `lines`.
pub open spec fn lookback_at(emitted: Seq<TokenView>, lines: Seq<Seq<char>>, i: int) -> bool {
    ends_in_paragraph(tokens_after(emitted, lines.take(i)))
}

/// Line `i` leaves no ambiguity when the pass reads it.
pub open spec fn resolves_at(emitted: Seq<TokenView>, lines: Seq<Seq<char>>, i: int) -> bool {
    !leaves_ambiguity(lines[i], lookback_at(emitted, lines, i))
}

/// Every token that a pass over `lines` adds to `emitted` is settled.
pub open spec fn adds_settled(emitted: Seq<TokenView>, lines: Seq<Seq<char>>) -> bool {
    forall|j: int|
        emitted.len() <= j < tokens_after(emitted, lines).len() ==> (
        #[trigger] tokens_after(emitted, lines)[j]).is_settled()
}

/// No line leaves ambiguity when it is read against the token emitted
/// before it.
pub open spec fn all_resolved(emitted: Seq<TokenView>, lines: Seq<Seq<char>>) -> bool {
    forall|i: int| 0 <= i < lines.len() ==> #[trigger] resolves_at(emitted, lines, i)
}

/// The lines resolve if all but the last do, and the last does.
proof fn lemma_resolved_step(emitted: Seq<TokenView>, lines: Seq<Seq<char>>)
    requires
        lines.len() > 0,
    ensures
        all_resolved(emitted, lines) <==> all_resolved(emitted, lines.drop_last())
            && !leaves_ambiguity(
            lines.last(),
            ends_in_paragraph(tokens_after(emitted, lines.drop_last())),
        ),
{
    let front = lines.drop_last();
    let last = lines.len() - 1;
    assert(lines.take(last) == front);
    assert(resolves_at(emitted, lines, last) == !leaves_ambiguity(
        lines.last(),
        ends_in_paragraph(tokens_after(emitted, front)),
    ));
    assert forall|i: int| 0 <= i < front.len() implies resolves_at(emitted, front, i)
        == resolves_at(emitted, lines, i) by {
        assert(front.take(i) == lines.take(i));
        assert(front[i] == lines[i]);
    }
    if all_resolved(emitted, lines) {
        assert(resolves_at(emitted, lines, last));
        assert forall|i: int| 0 <= i < front.len() implies #[trigger] resolves_at(
            emitted,
            front,
            i,
        ) by {
            assert(resolves_at(emitted, lines, i));
        }
    }
    if all_resolved(emitted, front) && resolves_at(emitted, lines, last) {
        assert forall|i: int| 0 <= i < lines.len() implies #[trigger] resolves_at(
            emitted,
            lines,
            i,
        ) by {
            if i < last {
                assert(resolves_at(emitted, front, i));
            }
        }
    }
}

/// The added tokens are settled if those of all lines but the last are, and
/// the token of the last line, where it has one.
proof fn lemma_settled_step(emitted: Seq<TokenView>, lines: Seq<Seq<char>>)
    requires
        lines.len() > 0,
    ensures
        adds_settled(emitted, lines) <==> adds_settled(emitted, lines.drop_last()) && (line_token(
            lines.last(),
            ends_in_paragraph(tokens_after(emitted, lines.drop_last())),
        ) matches Some(token) ==> token.is_settled()),
{
    let before = tokens_after(emitted, lines.drop_last());
    let after = tokens_after(emitted, lines);
    law_pass_extends(emitted, lines.drop_last());
    match line_token(lines.last(), ends_in_paragraph(before)) {
        Some(token) => {
            assert(after == before.push(token));
            if adds_settled(emitted, lines) {
                assert(after[before.len() as int].is_settled());
                assert forall|j: int| emitted.len() <= j < before.len() implies (
                #[trigger] before[j]).is_settled() by {
                    assert(after[j].is_settled());
                }
            }
            if adds_settled(emitted, lines.drop_last()) && token.is_settled() {
                assert forall|j: int| emitted.len() <= j < after.len() implies (
                #[trigger] after[j]).is_settled() by {
                    if j < before.len() {
                        assert(before[j].is_settled());
                    }
                }
            }
        },
        None => {
            assert(after == before);
        },
    }
}

/// Every token that a pass adds is settled exactly where no line, read
/// against the token emitted before it, leaves ambiguity.
pub proof fn law_pass_ambiguity(emitted: Seq<TokenView>, lines: Seq<Seq<char>>)
    ensures
        adds_settled(emitted, lines) <==> all_resolved(emitted, lines),
    decreases lines.len(),
{
    if lines.len() > 0 {
        let before = tokens_after(emitted, lines.drop_last());
        law_pass_ambiguity(emitted, lines.drop_last());
        lemma_resolved_step(emitted, lines);
        lemma_settled_step(emitted, lines);
        law_line_ambiguity(lines.last(), ends_in_paragraph(before));
    }
}

/// A line led by one to six `#`, with no `#` after them, is a header whose
/// level is their number. The token keeps the line's text and is closed.
pub proof fn law_header_level(
    line: Seq<char>,
    count: nat,
    rest: Seq<char>,
    after_paragraph: bool,
)
    requires
        !over_indented(line),
        trimmed_start(line) == run_of('#', count) + rest,
        1 <= count <= 6,
        !rest.contains('#'),
    ensures
        line_token(line, after_paragraph) == Some(
            TokenView {
                token_type: TokenType::Header(count as u32),
                text: trimmed_start(line),
                open: false,
            },
        ),
{
    let text = trimmed_start(line);
    lemma_occurrences_concat(run_of('#', count), rest, '#');
    lemma_occurrences_run('#', count, '#');
    lemma_occurrences_none(rest, '#');
    assert(text[0] == run_of('#', count)[0]);
}

/// A line led by seven or more `#` is a paragraph, whatever follows them.
pub proof fn law_long_header_is_paragraph(
    line: Seq<char>,
    count: nat,
    rest: Seq<char>,
    after_paragraph: bool,
)
    requires
        !over_indented(line),
        trimmed_start(line) == run_of('#', count) + rest,
        count >= 7,
    ensures
        line_token(line, after_paragraph) == Some(
            TokenView {
                token_type: TokenType::Paragraph,
                text: trimmed_start(line),
                open: false,
            },
        ),
{
    let text = trimmed_start(line);
    lemma_occurrences_concat(run_of('#', count), rest, '#');
    lemma_occurrences_run('#', count, '#');
    assert(text[0] == run_of('#', count)[0]);
}

/// A line of fewer than four whitespace characters, none of them a tab, is
/// one blank line without text, however many characters it has.
pub proof fn law_blank_line(line: Seq<char>, after_paragraph: bool)
    requires
        line.len() < 4,
        forall|i: int|
            0 <= i < line.len() ==> is_white_space(#[trigger] line[i]) && line[i] != '\t',
    ensures
        line_token(line, after_paragraph) == Some(
            TokenView { token_type: TokenType::BlankLine, text: Seq::empty(), open: false },
        ),
{
    lemma_indent_then_content(line, Seq::empty());
    assert(line + Seq::<char>::empty() == line);
}

/// Up to three whitespace characters other than a tab in front of a line
/// change nothing: the line is classified as it is without them.
pub proof fn law_shallow_indent(indent: Seq<char>, content: Seq<char>, after_paragraph: bool)
    requires
        indent.len() <= 3,
        forall|i: int|
            0 <= i < indent.len() ==> is_white_space(#[trigger] indent[i]) && indent[i] != '\t',
        content.len() > 0 ==> !is_white_space(content[0]),
    ensures
        line_token(indent + content, after_paragraph) == line_token(content, after_paragraph),
{
    lemma_indent_then_content(indent, content);
    lemma_indent_then_content(Seq::empty(), content);
    assert(Seq::<char>::empty() + content == content);
}

/// A line behind four whitespace characters has no token, whatever it holds.
pub proof fn law_deep_indent(indent: Seq<char>, rest: Seq<char>, after_paragraph: bool)
    requires
        indent.len() == 4,
        forall|i: int| 0 <= i < indent.len() ==> is_white_space(#[trigger] indent[i]),
    ensures
        line_token(indent + rest, after_paragraph) is None,
{
    let line = indent + rest;
    assert forall|i: int| 0 <= i < 4 implies is_white_space(#[trigger] line[i]) by {
        assert(line[i] == indent[i]);
    }
    lemma_leading_whitespace_at_least(line, 4);
}

/// A line that starts with a tab has no token, whatever follows the tab.
pub proof fn law_leading_tab(line: Seq<char>, after_paragraph: bool)
    requires
        line.len() > 0,
        line[0] == '\t',
    ensures
        line_token(line, after_paragraph) is None,
{
    lemma_tab_in_leading_whitespace(line, 0);
}

/// A line of `count` times `-` and nothing else: under a paragraph it is a
/// setext heading, whatever its length; elsewhere it is a thematic break
/// from three on, and below that it stays undetermined and open, with its
/// length as the count.
pub proof fn law_dash_run(line: Seq<char>, count: nat, after_paragraph: bool)
    requires
        !over_indented(line),
        trimmed_start(line) == run_of('-', count),
        count >= 1,
    ensures
        line_token(line, after_paragraph) == Some(
            TokenView {
                token_type: if after_paragraph {
                    TokenType::SetextHeading
                } else if count >= 3 {
                    TokenType::ThematicBreak
                } else {
                    TokenType::Undetermined('-', count as u8)
                },
                text: trimmed_start(line),
                open: !after_paragraph && count < 3,
            },
        ),
{
    let text = trimmed_start(line);
    lemma_occurrences_run('-', (count - 1) as nat, '-');
    assert(text.drop_first() == run_of('-', (count - 1) as nat));
    assert(text[0] == '-');
}

} // verus!
