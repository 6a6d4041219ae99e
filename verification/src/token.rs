//! Tokens: what the tokenizer cuts the source into and what the block
//! arranger hands to the parser.

use crate::symbol::Symbol;
use std::ops::Range;
use vstd::prelude::*;
use vstd::std_specs::cmp::PartialEqSpecImpl;

verus! {

/// The content of a token.
#[derive(Debug)]
pub enum TokenValue {
    /// A line start. The tokenizer stores the width of the line's indentation
    /// and notes the span of that indentation, from where the line begins;
    /// the block arranger replaces every line start by `Line(0)`, the plain
    /// statement separator.
    Line(usize),
    /// An identifier.
    Ident(String),
    /// A punctuation symbol.
    Punct(Symbol),
    /// A string literal, escapes resolved.
    LitStr(String),
    /// A number literal, held as the text it was written with.
    LitNum(String),
    /// Start of an indented block.
    BeginBlock,
    /// End of an indented block.
    EndBlock,
}

/// Mathematical content of a [`TokenValue`].
pub enum TokenValueView {
    Line(usize),
    Ident(Seq<char>),
    Punct(Symbol),
    LitStr(Seq<char>),
    LitNum(Seq<char>),
    BeginBlock,
    EndBlock,
}

/// A token with its span: the range of source offsets it was read from, and
/// for a line start the range of the indentation of its line.
#[derive(Debug)]
pub struct Token(pub TokenValue, pub Range<usize>);

/// Mathematical content of a [`Token`].
pub struct TokenView {
    pub value: TokenValueView,
    pub span: Range<usize>,
}

impl View for TokenValue {
    type V = TokenValueView;

    open spec fn view(&self) -> TokenValueView {
        match self {
            TokenValue::Line(w) => TokenValueView::Line(*w),
            TokenValue::Ident(s) => TokenValueView::Ident(s@),
            TokenValue::Punct(p) => TokenValueView::Punct(*p),
            TokenValue::LitStr(s) => TokenValueView::LitStr(s@),
            TokenValue::LitNum(s) => TokenValueView::LitNum(s@),
            TokenValue::BeginBlock => TokenValueView::BeginBlock,
            TokenValue::EndBlock => TokenValueView::EndBlock,
        }
    }
}

impl View for Token {
    type V = TokenView;

    open spec fn view(&self) -> TokenView {
        TokenView { value: self.0@, span: self.1 }
    }
}

/// The contents of a run of tokens.
pub open spec fn token_views(tokens: Seq<Token>) -> Seq<TokenView> {
    tokens.map_values(|t: Token| t@)
}

impl Clone for TokenValue {
    fn clone(&self) -> (r: Self)
        ensures
            r@ == self@,
    {
        match self {
            TokenValue::Line(w) => TokenValue::Line(*w),
            TokenValue::Ident(s) => TokenValue::Ident(s.clone()),
            TokenValue::Punct(p) => TokenValue::Punct(*p),
            TokenValue::LitStr(s) => TokenValue::LitStr(s.clone()),
            TokenValue::LitNum(s) => TokenValue::LitNum(s.clone()),
            TokenValue::BeginBlock => TokenValue::BeginBlock,
            TokenValue::EndBlock => TokenValue::EndBlock,
        }
    }
}

impl Clone for Token {
    fn clone(&self) -> (r: Self)
        ensures
            r@ == self@,
    {
        Token(self.0.clone(), self.1.start..self.1.end)
    }
}

impl PartialEq for TokenValue {
    fn eq(&self, other: &Self) -> (r: bool) {
        match (self, other) {
            (TokenValue::Line(a), TokenValue::Line(b)) => *a == *b,
            (TokenValue::Ident(a), TokenValue::Ident(b)) => *a == *b,
            (TokenValue::Punct(a), TokenValue::Punct(b)) => *a == *b,
            (TokenValue::LitStr(a), TokenValue::LitStr(b)) => *a == *b,
            (TokenValue::LitNum(a), TokenValue::LitNum(b)) => *a == *b,
            (TokenValue::BeginBlock, TokenValue::BeginBlock) => true,
            (TokenValue::EndBlock, TokenValue::EndBlock) => true,
            _ => false,
        }
    }
}

impl PartialEqSpecImpl for TokenValue {
    open spec fn obeys_eq_spec() -> bool {
        true
    }

    open spec fn eq_spec(&self, other: &Self) -> bool {
        self@ == other@
    }
}

/// Two tokens are equal when their contents are; where they were read from
/// does not count.
impl PartialEq for Token {
    fn eq(&self, other: &Self) -> (r: bool) {
        self.0 == other.0
    }
}

impl PartialEqSpecImpl for Token {
    open spec fn obeys_eq_spec() -> bool {
        true
    }

    open spec fn eq_spec(&self, other: &Self) -> bool {
        self.0@ == other.0@
    }
}

impl TokenValue {
    /// Wraps the content into a token that points at no source text.
    pub fn token(self) -> (r: Token)
        ensures
            r.0 == self,
            r.1 == (0usize..0usize),
    {
        Token(self, 0..0)
    }
}

} // verus!
