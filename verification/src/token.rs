//! The token model the reconstruction engine walks.
//!
//! Tokens mirror the host tokenizer's shape: atoms (punctuation,
//! identifiers, literals) and nested delimiter groups, each carrying the
//! (line, column) span it occupied in the original source. Lines are
//! 1-based and columns 0-based, matching the host tokenizer's convention.

use vstd::prelude::*;

verus! {

/// A position in the original source: 1-based line, 0-based column.
#[derive(Clone, Copy, PartialEq, Eq, Structural, Debug)]
pub struct Position {
    pub line: usize,
    pub column: usize,
}

/// The extent of a token in the original source.
#[derive(Clone, Copy, PartialEq, Eq, Structural, Debug)]
pub struct Span {
    pub start: Position,
    pub end: Position,
}

/// The delimiter kind of a token group.
#[derive(Clone, Copy, PartialEq, Eq, Structural, Debug)]
pub enum Delimiter {
    Parenthesis,
    Brace,
    Bracket,
    Invisible,
}

/// Whether a punctuation character is tight against the next token or
/// followed by whitespace.
#[derive(Clone, Copy, PartialEq, Eq, Structural, Debug)]
pub enum Spacing {
    Joint,
    Alone,
}

/// One token of the host token tree: a nested delimiter group or an atom.
pub enum Token {
    Group { delimiter: Delimiter, tokens: Vec<Token>, span: Span },
    Punct { ch: char, spacing: Spacing, span: Span },
    Ident { text: String, span: Span },
    Literal { text: String, span: Span },
}

impl Token {
    /// The span the token occupied in the original source.
    pub fn span(&self) -> (s: Span)
        ensures
            s == self.spec_span(),
    {
        match self {
            Token::Group { span, .. } => *span,
            Token::Punct { span, .. } => *span,
            Token::Ident { span, .. } => *span,
            Token::Literal { span, .. } => *span,
        }
    }

    pub open spec fn spec_span(&self) -> Span {
        match self {
            Token::Group { span, .. } => *span,
            Token::Punct { span, .. } => *span,
            Token::Ident { span, .. } => *span,
            Token::Literal { span, .. } => *span,
        }
    }
}

/// The opening text of a delimiter: one character, or none for an
/// invisible group.
pub open spec fn spec_open_delim(d: Delimiter) -> Seq<char> {
    match d {
        Delimiter::Parenthesis => seq!['('],
        Delimiter::Brace => seq!['{'],
        Delimiter::Bracket => seq!['['],
        Delimiter::Invisible => Seq::empty(),
    }
}

/// The closing text of a delimiter.
pub open spec fn spec_close_delim(d: Delimiter) -> Seq<char> {
    match d {
        Delimiter::Parenthesis => seq![')'],
        Delimiter::Brace => seq!['}'],
        Delimiter::Bracket => seq![']'],
        Delimiter::Invisible => Seq::empty(),
    }
}

} // verus!
