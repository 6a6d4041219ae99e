//! Front end of a small expression-oriented language: source text is cut into
//! tokens, indentation is turned into explicit block markers, and the result
//! is parsed into a syntax tree.
//!
//! The three stages are [`lexer::lexer`], [`lexer::arrange`] and
//! [`parser::parser`]; [`compile`] runs them one after the other.
//!
//! Offsets count characters. The offsets in what [`compile`] returns, in the
//! spans of the tree and in errors, are offsets into the source text it was
//! given. The tokenizer is run on the source behind one line break, so that
//! the first line starts like every other line; [`source_tokens`] moves every
//! offset back by that one character before the tokens are arranged.
//!
//! Each stage is specified by a function on mathematical sequences
//! ([`lexer::lex_spec`], [`blocks::arrange_spec`], [`grammar::program_spec`])
//! and returns exactly what that function says. Beyond that it is proved that
//! the tokens stand in the order of the text ([`order`]), that their spans
//! and the offsets of errors are offsets into the source ([`offsets`]), that
//! the block markers nest, that the arranger keeps the content and fails on
//! nothing but a dedent that fits no open block ([`nesting`]), how priority
//! and direction shape a tree ([`precedence`], [`sentences`]), and that the
//! tokenizer reads a rendered literal back as the literal it was
//! ([`roundtrip`]).

pub mod ast;
pub mod blocks;
pub mod error;
pub mod grammar;
pub mod lexer;
pub mod nesting;
pub mod offsets;
pub mod order;
pub mod parser;
pub mod precedence;
pub mod reduce;
pub mod render;
pub mod roundtrip;
pub mod sentences;
pub mod symbol;
pub mod text;
pub mod token;

use crate::ast::{Block, ExprView};
use crate::blocks::{arrange_spec, lemma_token_views_push};
use crate::error::CompileError;
use crate::grammar::program_spec;
use crate::lexer::lex_spec;
use crate::order::lemma_behind_leading_break;
use crate::token::{token_views, Token, TokenView};
use vstd::prelude::*;

verus! {

/// The source behind one line break: the text that the tokenizer is run on.
pub open spec fn behind_break(src: Seq<char>) -> Seq<char> {
    seq!['\n'] + src
}

/// The token with its span moved back by one character: from an offset into
/// the source behind a line break to the offset into the source.
pub open spec fn moved_back(t: TokenView) -> TokenView {
    TokenView { value: t.value, span: ((t.span.start - 1) as usize)..((t.span.end - 1) as usize) }
}

/// The tokens of the source text `src`, with offsets into `src`: the tokens
/// of `src` behind one line break, each moved back by one character. A line
/// start carries the span of the indentation of its line, so the first token
/// is the line start of the first line, whose span starts at 0. A lexical
/// error is moved back likewise. By [`lemma_behind_leading_break`] no offset
/// is 0 before it is moved.
pub open spec fn source_tokens_spec(src: Seq<char>) -> Result<Seq<TokenView>, CompileError> {
    match lex_spec(behind_break(src)) {
        Ok(tokens) => Ok(tokens.map_values(|t: TokenView| moved_back(t))),
        Err(e) => Err(CompileError { kind: e.kind, position: (e.position - 1) as usize }),
    }
}

/// What [`compile`] makes of the source text `src`: the syntax tree of the
/// arranged tokens of `src`, or the error of the first stage that fails. All
/// offsets are offsets into `src`.
pub open spec fn compile_spec(src: Seq<char>) -> Result<Seq<ExprView>, CompileError> {
    match source_tokens_spec(src) {
        Err(e) => Err(e),
        Ok(tokens) => match arrange_spec(tokens) {
            Err(e) => Err(e),
            Ok(arranged) => program_spec(arranged),
        },
    }
}

/// Cuts source text into tokens whose spans are offsets into the source.
///
/// Fails with a lexical error at the first offset of `src`, behind any spaces
/// and tabs, at which no token starts and the text has not ended.
///
/// The width of an indentation must fit the machine: the source may be at
/// most an eighth of `usize::MAX` long.
pub fn source_tokens(src: &str) -> (r: Result<Vec<Token>, CompileError>)
    requires
        (src@.len() + 1) * 8 <= usize::MAX,
    ensures
        match r {
            Ok(tokens) => source_tokens_spec(src@) == Ok::<Seq<TokenView>, CompileError>(
                token_views(tokens@),
            ),
            Err(e) => source_tokens_spec(src@) == Err::<Seq<TokenView>, CompileError>(e),
        },
{
    let mut chars: Vec<char> = Vec::new();
    chars.push('\n');
    let mut body = text::chars_of(src);
    chars.append(&mut body);
    proof {
        assert(chars@ =~= behind_break(src@));
        lemma_behind_leading_break(chars@);
    }
    let read = match lexer::lexer(chars.as_slice()) {
        Ok(read) => read,
        Err(e) => {
            return Err(CompileError { kind: e.kind, position: e.position - 1 });
        },
    };
    let ghost views = token_views(read@);
    let mut tokens: Vec<Token> = Vec::new();
    let mut i: usize = 0;
    proof {
        assert(token_views(tokens@) =~= views.take(0).map_values(|t: TokenView| moved_back(t)));
    }
    while i < read.len()
        invariant
            i <= read.len(),
            views == token_views(read@),
            forall|k: int| 0 <= k < views.len() ==> 1 <= (#[trigger] views[k]).span.start
                <= views[k].span.end,
            token_views(tokens@) == views.take(i as int).map_values(|t: TokenView| moved_back(t)),
        decreases read.len() - i,
    {
        let ghost before = tokens@;
        proof {
            assert(views[i as int] == read@[i as int]@);
        }
        let moved = Token(read[i].0.clone(), (read[i].1.start - 1)..(read[i].1.end - 1));
        tokens.push(moved);
        proof {
            lemma_token_views_push(before, moved);
            assert(moved@ == moved_back(views[i as int]));
            assert(token_views(tokens@) =~= views.take(i + 1).map_values(
                |t: TokenView| moved_back(t),
            ));
        }
        i += 1;
    }
    proof {
        assert(views.take(read@.len() as int) =~= views);
    }
    Ok(tokens)
}

/// Compiles source text into its syntax tree.
///
/// Returns the statements of the top level, or the error of the first stage
/// that fails: a lexical error at the offset of the text that starts no
/// token, an indentation error at the offset where the offending line begins,
/// or a syntax error at the offset of the unexpected token. The offsets in the
/// error and in the spans of the tree are offsets into `src`.
///
/// The width of an indentation must fit the machine: the source may be at
/// most an eighth of `usize::MAX` long.
pub fn compile(src: &str) -> (r: Result<Block, CompileError>)
    requires
        (src@.len() + 1) * 8 <= usize::MAX,
    ensures
        match r {
            Ok(b) => compile_spec(src@) == Ok::<Seq<ExprView>, CompileError>(b@),
            Err(e) => compile_spec(src@) == Err::<Seq<ExprView>, CompileError>(e),
        },
{
    let tokens = match source_tokens(src) {
        Ok(tokens) => tokens,
        Err(e) => {
            return Err(e);
        },
    };
    let arranged = match lexer::arrange(tokens.as_slice()) {
        Ok(arranged) => arranged,
        Err(e) => {
            return Err(e);
        },
    };
    parser::parser(arranged.as_slice())
}

} // verus!
