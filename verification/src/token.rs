//! The tokens that the tokenizer emits.

use vstd::prelude::*;
use crate::whitespace::is_white_space;

verus! {

/// What a token stands for. The set is closed. The tokenizer produces
/// `Header`, `SetextHeading`, `BlankLine`, `ThematicBreak`, `Paragraph` and,
/// where a line stays ambiguous, `Undetermined`; the inline and container
/// kinds are held for later passes.
#[derive(Debug, PartialEq, Eq)]
pub enum TokenType {
    /// A line led by an ambiguous punctuation character: the character, and
    /// how often the run was counted.
    Undetermined(char, u8),
    /// Inline code, with the number of backticks.
    CodeSpan(u8),
    /// Emphasis, with its marker (`_` or `*`) and how many of it.
    Emphasis(char, u8),
    HardLineBreak,
    SoftLineBreak,
    Link,
    Autolink,
    /// A heading led by `#`, with its level, 1 to 6.
    Header(u32),
    /// A line of `-` or `=` under a paragraph.
    SetextHeading,
    LinkReferenceDef,
    /// An empty line, or one of whitespace only.
    BlankLine,
    IndentCodeBlock,
    /// A fenced code block, with its fence character and length.
    FencedCodeBlock(char, u8),
    ThematicBreak,
    /// The fallback for a line that no other rule claims.
    Paragraph,
    BlockQuote(Box<TokenType>),
    /// A bullet list, with its marker (`-`, `+` or `*`).
    BulletList(char, Box<TokenType>),
    /// An ordered list, with its delimiter (`)` or `.`).
    OrderedList(char, Box<TokenType>),
}

/// One classified line.
#[derive(Debug, PartialEq, Eq)]
pub struct Token {
    /// The line's classification.
    pub token_type: TokenType,
    /// The line without its leading whitespace; empty for a blank line.
    pub text: String,
    /// Whether the classification is still unsettled.
    pub open: bool,
}

/// A token as a mathematical value: its text is a sequence of characters.
pub struct TokenView {
    pub token_type: TokenType,
    pub text: Seq<char>,
    pub open: bool,
}

impl TokenType {
    /// The kinds that the tokenizer gives to a line, with the bounds that it
    /// keeps: a header's level lies between 1 and 6, and an undetermined
    /// kind carries one of the five ambiguous leads and a count below three,
    /// which is one unless the lead is `-` or `=`.
    pub open spec fn is_block_kind(self) -> bool {
        match self {
            TokenType::Header(level) => 1 <= level <= 6,
            TokenType::Undetermined(lead, count) => {
                ||| (lead == '-' || lead == '=') && 1 <= count <= 2
                ||| (lead == '_' || lead == '*' || lead == '+') && count == 1
            },
            TokenType::SetextHeading
            | TokenType::BlankLine
            | TokenType::ThematicBreak
            | TokenType::Paragraph => true,
            _ => false,
        }
    }
}

impl TokenView {
    /// A token whose classification is final: it is closed, and its kind is
    /// not undetermined.
    pub open spec fn is_settled(self) -> bool {
        !(self.token_type is Undetermined) && !self.open
    }

    /// What holds of every token that the tokenizer makes of a line. Its
    /// kind is a block kind. It is open exactly when it is undetermined, and
    /// an undetermined kind carries the first character of the text. A blank
    /// line has no text; any other token has text, which starts with a
    /// character that is not whitespace.
    pub open spec fn is_line_token(self) -> bool {
        &&& self.token_type.is_block_kind()
        &&& self.open <==> self.token_type is Undetermined
        &&& self.token_type is BlankLine <==> self.text.len() == 0
        &&& self.text.len() > 0 ==> !is_white_space(self.text[0])
        &&& self.token_type matches TokenType::Undetermined(lead, _) ==> lead == self.text[0]
    }
}

impl View for Token {
    type V = TokenView;

    open spec fn view(&self) -> TokenView {
        TokenView { token_type: self.token_type, text: self.text@, open: self.open }
    }
}

impl DeepView for Token {
    type V = TokenView;

    open spec fn deep_view(&self) -> TokenView {
        self.view()
    }
}

} // verus!
