//! The tokenizer: one pass over the lines of a document.

use vstd::prelude::*;
use crate::line::{
    lemma_occurrences_drop_first, lemma_occurrences_prefix, line_token, occurrences,
};
use crate::token::{Token, TokenType, TokenView};
use crate::whitespace::{
    is_white_space, lemma_leading_whitespace_at_least, lemma_leading_whitespace_unique,
    lemma_tab_in_leading_whitespace, over_indented,
};

verus! {

/// The error type of `anyhow`, which `Tokenizer::chunk` names in its result
/// and never builds. Trusted as an opaque type.
#[verifier::external_type_specification]
#[verifier::external_body]
pub struct ExAnyhowError(anyhow::Error);

/// The lines of one document and the tokens emitted for them so far.
pub struct Tokenizer {
    pub tokens: Vec<Token>,
    pub lines: Box<[String]>,
}

/// Whether a line follows a paragraph: there is a token before it, and that
/// token is a paragraph. This is all that the classification of a line reads
/// of what came before it.
pub open spec fn follows_paragraph(previous: Option<TokenView>) -> bool {
    previous matches Some(token) && token.token_type is Paragraph
}

/// Whether the token emitted last is a paragraph.
pub open spec fn ends_in_paragraph(emitted: Seq<TokenView>) -> bool {
    emitted.len() > 0 && emitted.last().token_type is Paragraph
}

/// The tokens that stand once `lines` have been read in order, starting from
/// the tokens `emitted` before. Each line adds its token, if it has one,
/// classified against the last token standing at that moment.
pub open spec fn tokens_after(emitted: Seq<TokenView>, lines: Seq<Seq<char>>) -> Seq<TokenView>
    decreases lines.len(),
{
    if lines.len() == 0 {
        emitted
    } else {
        let before = tokens_after(emitted, lines.drop_last());
        match line_token(lines.last(), ends_in_paragraph(before)) {
            Some(token) => before.push(token),
            None => before,
        }
    }
}

impl Tokenizer {
    /// The tokens that a pass leaves: those held now, and after them the
    /// tokens of the lines.
    pub open spec fn outcome(&self) -> Seq<TokenView> {
        tokens_after(self.tokens.deep_view(), self.lines.deep_view())
    }

    /// Reads every line once, in order, and appends the token of each line
    /// that has one to `tokens`. The lines are left as they were. The pass
    /// never fails.
    pub fn chunk(&mut self) -> (done: anyhow::Result<()>)
        ensures
            done is Ok,
            final(self).lines == old(self).lines,
            final(self).tokens.deep_view() == old(self).outcome(),
    {
        let ghost lines = self.lines.deep_view();
        let ghost emitted = self.tokens.deep_view();
        let mut i: usize = 0;
        while i < self.lines.len()
            invariant
                i <= self.lines@.len(),
                self.lines == old(self).lines,
                lines == self.lines.deep_view(),
                self.tokens.deep_view() == tokens_after(emitted, lines.take(i as int)),
            decreases self.lines@.len() - i,
        {
            let ghost before = self.tokens.deep_view();
            let count = self.tokens.len();
            let previous = if count > 0 {
                Some(&self.tokens[count - 1])
            } else {
                None
            };
            proof {
                assert(lines.take(i + 1).drop_last() == lines.take(i as int));
                assert(lines.take(i + 1).last() == self.lines@[i as int]@);
                assert(follows_paragraph(previous.deep_view()) == ends_in_paragraph(before));
            }
            match Self::classify_line(self.lines[i].as_str(), previous) {
                Some(token) => {
                    self.tokens.push(token);
                    assert(self.tokens.deep_view() == before.push(token@));
                },
                None => {},
            }
            i += 1;
        }
        proof {
            assert(lines.take(i as int) == lines);
        }
        Ok(())
    }

    /// Classifies one line against the token emitted before it, if there is
    /// one. The result is `None` for a line that is indented too far, and the
    /// line's token otherwise. Of `previous` only its kind is read, and of
    /// that only whether it is a paragraph.
    pub fn classify_line(line: &str, previous: Option<&Token>) -> (token: Option<Token>)
        ensures
            token.deep_view() == line_token(line@, follows_paragraph(previous.deep_view())),
    {
        if Self::too_much_whitespace(line) {
            return None;
        }
        let after_paragraph = match previous {
            Some(Token { token_type: TokenType::Paragraph, .. }) => true,
            _ => false,
        };
        let trimmed_line = line.trim_start();
        let mut trimmed_chars = trimmed_line.chars();
        let token = match trimmed_chars.next() {
            None => Token { token_type: TokenType::BlankLine, text: String::new(), open: false },
            Some(ch) => {
                let token_type = match ch {
                    '#' => {
                        let level = count_up_to(trimmed_line, '#', 7);
                        if level > 6 {
                            TokenType::Paragraph
                        } else {
                            TokenType::Header(level as u32)
                        }
                    },
                    '-' | '=' => {
                        proof {
                            lemma_occurrences_drop_first(trimmed_line@, '-');
                        }
                        let lead: u8 = if ch == '-' { 0 } else { 1 };
                        let n = lead + count_up_to(trimmed_line, '-', 3);
                        if after_paragraph {
                            TokenType::SetextHeading
                        } else if n >= 3 {
                            TokenType::ThematicBreak
                        } else {
                            TokenType::Undetermined(ch, n)
                        }
                    },
                    '_' | '*' | '+' => TokenType::Undetermined(ch, 1),
                    _ => TokenType::Paragraph,
                };
                let open = match token_type {
                    TokenType::Undetermined(_, _) => true,
                    _ => false,
                };
                Token { token_type, text: trimmed_line.to_owned(), open }
            },
        };
        Some(token)
    }

    /// Whether the line is indented too far to open a block. A tab in the
    /// leading whitespace decides at once; otherwise each whitespace
    /// character counts one, and four decide.
    pub fn too_much_whitespace(line: &str) -> (too_much: bool)
        ensures
            too_much == over_indented(line@),
    {
        let mut whitespace_len: u8 = 0;
        for ch in it: line.chars()
            invariant
                it.seq() == line@,
                whitespace_len == it.index() < 4,
                forall|i: int|
                    0 <= i < it.index() ==> is_white_space(#[trigger] line@[i]) && line@[i] != '\t',
        {
            let ghost seen = it.index() as int;
            if ch == '\t' {
                proof {
                    lemma_tab_in_leading_whitespace(line@, seen);
                }
                return true;
            } else if ch.is_whitespace() {
                whitespace_len += 1;
            } else {
                proof {
                    lemma_leading_whitespace_unique(line@, seen);
                    assert(!line@.take(seen).contains('\t'));
                }
                return false;
            }
            if whitespace_len >= 4 {
                proof {
                    lemma_leading_whitespace_at_least(line@, 4);
                }
                return true;
            }
        }
        proof {
            lemma_leading_whitespace_unique(line@, line@.len() as int);
            assert(!line@.take(line@.len() as int).contains('\t'));
        }
        false
    }
}

/// Counts how often `c` occurs in `s`, and stops at `limit`.
fn count_up_to(s: &str, c: char, limit: u8) -> (n: u8)
    ensures
        n as nat == if occurrences(s@, c) < limit { occurrences(s@, c) } else { limit as nat },
{
    let mut n: u8 = 0;
    if limit == 0 {
        return n;
    }
    for ch in it: s.chars()
        invariant
            it.seq() == s@,
            n < limit,
            n as nat == occurrences(s@.take(it.index() as int), c),
    {
        proof {
            assert(s@.take(it.index() + 1).drop_last() == s@.take(it.index() as int));
        }
        if ch == c {
            n += 1;
        }
        if n >= limit {
            proof {
                lemma_occurrences_prefix(s@, c, it.index() + 1);
            }
            return n;
        }
    }
    proof {
        assert(s@.take(s@.len() as int) == s@);
    }
    n
}

} // verus!
